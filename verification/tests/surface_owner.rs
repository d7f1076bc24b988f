use localview::control::surface_owner::{
    owner_expired, SurfaceOwnerError, SurfaceOwnerProof, SurfaceOwners, SURFACE_OWNER_TTL_NANOS,
};

fn owner_proof(owner: u128, boot: u128, lease: u128) -> SurfaceOwnerProof {
    SurfaceOwnerProof { owner_instance_id: owner, boot_epoch: boot, owner_lease_id: lease }
}

#[test]
fn owners_register_validate_and_heartbeat() {
    let mut owners = SurfaceOwners::new(77);
    let registration = owners.register(5, 500, 1_000, true);
    assert_eq!(registration.boot_epoch, 77);
    assert_eq!(registration.owner_lease_id, 500);
    assert!(registration.recovery_required);
    assert_eq!(owners.validate(owner_proof(5, 77, 500), 1_000), Ok(()));
    assert_eq!(owners.validate(owner_proof(5, 78, 500), 1_000), Err(SurfaceOwnerError::BootEpochMismatch));
    assert_eq!(owners.validate(owner_proof(6, 77, 500), 1_000), Err(SurfaceOwnerError::NotRegistered));
    assert_eq!(owners.validate(owner_proof(5, 77, 501), 1_000), Err(SurfaceOwnerError::LeaseMismatch));
    let late = 1_000 + SURFACE_OWNER_TTL_NANOS;
    assert_eq!(owners.validate(owner_proof(5, 77, 500), late), Err(SurfaceOwnerError::NotRegistered));
    assert_eq!(owners.heartbeat(owner_proof(5, 77, 500), late - 1), Ok(()));
    assert_eq!(owners.validate(owner_proof(5, 77, 500), late), Ok(()));
    assert_eq!(owners.heartbeat(owner_proof(5, 77, 500), late - 2 + SURFACE_OWNER_TTL_NANOS), Ok(()));
}

#[test]
fn reregistration_revokes_the_old_lease_and_reaping_is_ordered() {
    let mut owners = SurfaceOwners::new(1);
    owners.register(9, 90, 0, false);
    owners.register(3, 30, 0, false);
    owners.register(6, 60, 100, false);
    owners.register(9, 91, 0, false);
    assert_eq!(owners.validate(owner_proof(9, 1, 90), 10), Err(SurfaceOwnerError::LeaseMismatch));
    assert_eq!(owners.validate(owner_proof(9, 1, 91), 10), Ok(()));
    assert_eq!(owners.reap_expired(SURFACE_OWNER_TTL_NANOS + 50), vec![3, 9]);
    assert_eq!(owners.validate(owner_proof(3, 1, 30), 0), Err(SurfaceOwnerError::NotRegistered));
    assert_eq!(owners.validate(owner_proof(6, 1, 60), 200), Ok(()));
    assert_eq!(SurfaceOwnerError::LeaseMismatch.code(), "surface_owner_lease_mismatch");
    assert!(owner_expired(0, SURFACE_OWNER_TTL_NANOS));
    assert!(!owner_expired(10, 5));
}
