use chess_engine::castle::CastleRights;

#[test]
fn castle_rights_bitflags() {
    assert_eq!(
        CastleRights::no_rights()
            .union(CastleRights::white_ks())
            .union(CastleRights::white_qs())
            .union(CastleRights::black_ks())
            .union(CastleRights::black_qs()),
        CastleRights::all(),
    );
    assert!(CastleRights::white_ks().union(CastleRights::black_qs()).contains(
        CastleRights::white_ks()
    ));
    assert!(!CastleRights::white_ks().contains(CastleRights::all()));
}

#[test]
fn union_is_idempotent_and_contains_both_sides() {
    let r = CastleRights::white_qs().union(CastleRights::black_ks());
    assert_eq!(r.union(r), r);
    assert!(r.contains(CastleRights::white_qs()));
    assert!(r.contains(CastleRights::black_ks()));
    assert!(!r.contains(CastleRights::white_ks()));
    assert!(r.contains(CastleRights::no_rights()));
}
