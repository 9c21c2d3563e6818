use big_sql::rbac::{DatabaseId, GrantKey, Grants, Privilege, Privileges, RbacError, Who, ANY_TABLE, MAX_GRANTS, MAX_ROLES, SUPERUSER};

#[test]
fn a_privilege_bit_is_stable_and_distinct() {
    let mut seen = 0u32;
    for p in Privilege::ALL {
        assert_eq!(seen & p.bit(), 0, "{p:?} collides with one before it");
        seen |= p.bit();
    }
    assert_eq!(Privileges::known().0, seen);
    // Pinned: these are the on-disk numbers, and reordering the enum would silently move
    // every grant already written.
    assert_eq!(Privilege::Select.bit(), 1);
    assert_eq!(Privilege::Insert.bit(), 2);
    assert_eq!(Privilege::Delete.bit(), 4);
    assert_eq!(Privilege::Operate.bit(), 128);
}

#[test]
fn a_privilege_round_trips_through_its_name() {
    for p in Privilege::ALL {
        assert_eq!(Privilege::parse(p.as_str()), Some(p));
        assert_eq!(Privilege::parse(&p.as_str().to_lowercase()), Some(p));
    }
    assert_eq!(Privilege::parse("EXECUTE"), None);
}

/// Grants are additive, so a privilege held at any level covering an object is held on it.
#[test]
fn the_three_levels_union() {
    let mut g = Grants::new();
    let r = g.intern_role("analyst").unwrap();
    g.set(GrantKey::server(r), Privileges::from_iter(&[Privilege::Select])).unwrap();
    g.set(GrantKey::database(r, 7), Privileges::from_iter(&[Privilege::Insert])).unwrap();
    g.set(GrantKey::table(r, 7, 3), Privileges::from_iter(&[Privilege::Drop])).unwrap();

    assert!(g.allows(r, Privilege::Select, 7, 3));
    assert!(g.allows(r, Privilege::Insert, 7, 3));
    assert!(g.allows(r, Privilege::Drop, 7, 3));
    // The table-level grant does not leak to a sibling.
    assert!(!g.allows(r, Privilege::Drop, 7, 4));
    // Nor the database-level one to another database.
    assert!(!g.allows(r, Privilege::Insert, 8, 3));
    // But the server-level one reaches everywhere.
    assert!(g.allows(r, Privilege::Select, 8, 4));
}

/// A bit this build cannot name is stored, and never acted on. Both halves matter: the first
/// is what stops a downgrade destroying a grant, the second is what stops it honouring one.
#[test]
fn an_unknown_bit_is_kept_but_never_grants_anything() {
    let mut g = Grants::new();
    let r = g.intern_role("analyst").unwrap();
    let future = Privileges(Privilege::Select.bit() | 0x8000_0000);
    g.set(GrantKey::database(r, 7), future).unwrap();

    assert_eq!(g.get(GrantKey::database(r, 7)), future, "stored whole");
    assert_eq!(g.effective(r, 7, ANY_TABLE).0, Privilege::Select.bit(), "acted on narrowed");
}

#[test]
fn a_role_that_was_never_made_holds_nothing() {
    let g = Grants::new();
    assert!(!g.allows(9, Privilege::Select, 7, 3));
    assert!(g.effective(9, 7, 3).is_empty());
}

#[test]
fn the_reserved_role_is_not_a_row() {
    let mut g = Grants::new();
    assert_eq!(g.intern_role(SUPERUSER), Err(RbacError::ReservedRole(SUPERUSER.into())));
    assert_eq!(g.drop_role(SUPERUSER), Err(RbacError::ReservedRole(SUPERUSER.into())));
    assert!(g.role(SUPERUSER).is_none());
    // And a record claiming it is skipped rather than interned.
    g.restore_role(41, SUPERUSER);
    assert!(g.role(SUPERUSER).is_none());
    assert!(Who::Role(SUPERUSER.into()).is_superuser());
}

#[test]
fn a_remade_role_never_reuses_the_dropped_ones_id() {
    let mut g = Grants::new();
    let first = g.intern_role("analyst").unwrap();
    g.set(GrantKey::database(first, 7), Privileges::from_iter(&[Privilege::Drop])).unwrap();
    assert!(g.drop_role("analyst").unwrap());
    assert_eq!(g.grant_count(), 0, "its grants went with it");

    let again = g.intern_role("analyst").unwrap();
    assert_ne!(first, again);
    assert!(!g.allows(again, Privilege::Drop, 7, ANY_TABLE));
}

#[test]
fn remaking_a_role_is_idempotent_and_keeps_its_grants() {
    let mut g = Grants::new();
    let first = g.intern_role("analyst").unwrap();
    g.set(GrantKey::database(first, 7), Privileges::from_iter(&[Privilege::Select])).unwrap();
    assert_eq!(g.intern_role("analyst").unwrap(), first);
    assert!(g.allows(first, Privilege::Select, 7, ANY_TABLE));
}

#[test]
fn an_empty_mask_removes_the_grant_rather_than_storing_nothing() {
    let mut g = Grants::new();
    let r = g.intern_role("analyst").unwrap();
    g.set(GrantKey::database(r, 7), Privileges::from_iter(&[Privilege::Select])).unwrap();
    assert_eq!(g.grant_count(), 1);
    g.set(GrantKey::database(r, 7), Privileges::empty()).unwrap();
    assert_eq!(g.grant_count(), 0);
}

#[test]
fn the_ceilings_hold_and_rewriting_an_existing_grant_is_not_a_new_one() {
    let mut g = Grants::new();
    for i in 0..MAX_ROLES {
        g.intern_role(&format!("r{i}")).unwrap();
    }
    assert_eq!(g.intern_role("more"), Err(RbacError::TooManyRoles { max: MAX_ROLES }));

    let r = g.role("r0").unwrap();
    let one = Privileges::from_iter(&[Privilege::Select]);
    for i in 0..MAX_GRANTS {
        g.set(GrantKey::database(r, i as DatabaseId), one).unwrap();
    }
    assert_eq!(
        g.set(GrantKey::database(r, 9999), one),
        Err(RbacError::TooManyGrants { max: MAX_GRANTS })
    );
    // A rewrite is not a new record, or `REVOKE` would be refused exactly when the catalog
    // most needed shrinking.
    assert!(g.set(GrantKey::database(r, 0), Privileges::from_iter(&[Privilege::Drop])).is_ok());
    assert!(g.set(GrantKey::database(r, 0), Privileges::empty()).is_ok());
}

#[test]
fn an_object_going_away_takes_its_grants() {
    let mut g = Grants::new();
    let r = g.intern_role("analyst").unwrap();
    let one = Privileges::from_iter(&[Privilege::Select]);
    g.set(GrantKey::table(r, 7, 3), one).unwrap();
    g.set(GrantKey::database(r, 7), one).unwrap();
    g.set(GrantKey::database(r, 8), one).unwrap();

    g.forget_table(3);
    assert_eq!(g.grant_count(), 2);
    g.forget_database(7);
    assert_eq!(g.grant_count(), 1);
    assert!(g.allows(r, Privilege::Select, 8, ANY_TABLE));
}

/// A grant read before its role is an ordinary file, not a corrupt one, so the caller stages
/// them - and one whose role never turns up is dropped rather than kept as an orphan.
#[test]
fn a_restored_grant_needs_its_role_to_be_there_first() {
    let mut g = Grants::new();
    let one = Privileges::from_iter(&[Privilege::Select]);
    assert!(!g.restore_grant(GrantKey::database(0, 7), one), "no role yet");
    g.restore_role(0, "analyst");
    assert!(g.restore_grant(GrantKey::database(0, 7), one));
    assert!(g.allows(0, Privilege::Select, 7, ANY_TABLE));
}

/// Ids only ever go up, across a reload as well as within one.
#[test]
fn the_counter_survives_being_derived_or_read() {
    let mut g = Grants::new();
    g.restore_role(4, "analyst");
    g.seal();
    assert_eq!(g.intern_role("another").unwrap(), 5);

    let mut g = Grants::new();
    g.restore_role(0, "analyst");
    g.observe_role_id(40);
    g.seal();
    assert_eq!(g.intern_role("another").unwrap(), 40, "the record wins when it is further on");
}

#[test]
fn a_privilege_knows_where_it_may_be_granted() {
    assert!(Privilege::Select.grantable_on_table());
    assert!(Privilege::Select.grantable_on_database());
    // Creating a table that already exists is not a thing to be allowed.
    assert!(!Privilege::Create.grantable_on_table());
    assert!(Privilege::Create.grantable_on_database());
    // Administering roles is about the server and means nothing inside a database.
    assert!(!Privilege::Roles.grantable_on_database());
    assert!(!Privilege::Operate.grantable_on_database());
}
