use localview::control::resource_runtime::{
    surface_identity, valid_request_id, LiveSurfaceIdentity, SurfaceClaim, SurfaceResources,
};

fn identity(kind: &str, label: &str, incarnation: u64) -> LiveSurfaceIdentity {
    surface_identity(kind.to_string(), label.to_string(), incarnation).expect("valid surface identity")
}

fn claim(owner: u128, session: u128, kind: &str, label: &str, incarnation: u64) -> SurfaceClaim {
    SurfaceClaim { owner, session, identity: identity(kind, label, incarnation) }
}

#[test]
fn surface_identities_are_known_kinds_with_bounded_labels() {
    assert!(surface_identity("preview_window".into(), "preview-1".into(), 1).is_some());
    assert!(surface_identity("workspace_child".into(), "w".into(), 0).is_some());
    assert!(surface_identity("popup".into(), "p".into(), 1).is_none());
    assert!(surface_identity("preview_window".into(), "".into(), 1).is_none());
    assert!(surface_identity("preview_window".into(), "a\u{7}".into(), 1).is_none());
    assert!(surface_identity("preview_window".into(), "x".repeat(161), 1).is_none());
    assert!(surface_identity("preview_window".into(), "x".repeat(160), 1).is_some());
    assert!(valid_request_id("req-1"));
    assert!(!valid_request_id(""));
}

#[test]
fn activation_needs_a_reservation_and_a_free_surface() {
    let mut resources: SurfaceResources<&str, &str> = SurfaceResources::new();
    assert!(resources.add_reservation(1, 10, "req".into(), "reservation"));
    assert!(!resources.add_reservation(1, 10, "req".into(), "again"));
    assert!(resources.has_reservation(1, 10, "req"));

    let first = claim(1, 10, "preview_window", "preview", 1);
    assert_eq!(resources.begin_activation(first.clone(), "other"), Err("surface_reservation_missing"));
    assert_eq!(resources.begin_activation(first.clone(), "req"), Ok("reservation"));
    assert!(!resources.has_reservation(1, 10, "req"));
    assert!(resources.surface_claimed(10, &first.identity));

    assert!(resources.add_reservation(2, 10, "req2".into(), "second"));
    let rival = claim(2, 10, "preview_window", "preview", 2);
    assert_eq!(resources.begin_activation(rival, "req2"), Err("surface_owner_already_live"));
    assert!(resources.has_reservation(2, 10, "req2"));

    resources.finish_activation(first.clone(), "lease");
    assert_eq!(resources.live_lease(&first), Some(&"lease"));
    assert!(resources.surface_claimed(10, &first.identity));
    assert_eq!(resources.take_reservation(2, 10, "req2"), Some("second"));
}

#[test]
fn the_primary_surface_is_the_first_preview_window_and_owns_actions() {
    let mut resources: SurfaceResources<(), &str> = SurfaceResources::new();
    let workspace = claim(1, 10, "workspace_child", "workspace", 3);
    resources.finish_activation(workspace.clone(), "w");
    assert_eq!(resources.primary_live_surface(10), Some(workspace.clone()));
    assert_eq!(resources.validate_primary_action(&workspace), Ok(()));

    let preview_b = claim(2, 10, "preview_window", "b", 1);
    let preview_a = claim(2, 10, "preview_window", "a", 5);
    resources.finish_activation(preview_b.clone(), "pb");
    resources.finish_activation(preview_a.clone(), "pa");
    assert_eq!(resources.primary_live_surface(10), Some(preview_a.clone()));
    assert_eq!(resources.primary_live_surface(11), None);
    assert_eq!(resources.validate_primary_action(&workspace), Err("surface_not_primary_action_authority"));
    assert_eq!(resources.validate_primary_action(&claim(2, 10, "preview_window", "a", 6)), Err("surface_owner_incarnation_mismatch"));

    assert_eq!(resources.release(&preview_a), Ok(("pa", true)));
    assert_eq!(resources.release(&preview_b), Ok(("pb", true)));
    assert_eq!(resources.release(&workspace), Ok(("w", true)));
    assert_eq!(resources.primary_live_surface(10), None);
}

#[test]
fn releases_tell_fence_from_incarnation_mismatches() {
    let mut resources: SurfaceResources<(), &str> = SurfaceResources::new();
    resources.finish_activation(claim(1, 10, "preview_window", "p", 1), "l");
    assert_eq!(resources.release(&claim(2, 10, "preview_window", "p", 1)), Err("surface_owner_fence_mismatch"));
    assert_eq!(resources.release(&claim(1, 10, "preview_window", "p", 2)), Err("surface_owner_incarnation_mismatch"));
    assert_eq!(resources.mismatch_code(&claim(1, 10, "preview_window", "q", 1)), "surface_owner_incarnation_mismatch");
}

#[test]
fn releasing_an_owner_or_session_forgets_what_it_held() {
    let mut resources: SurfaceResources<&str, &str> = SurfaceResources::new();
    assert!(resources.add_reservation(1, 10, "a".into(), "ra"));
    assert!(resources.add_reservation(1, 11, "b".into(), "rb"));
    assert!(resources.add_reservation(2, 10, "c".into(), "rc"));
    resources.finish_activation(claim(1, 10, "preview_window", "p", 1), "l1");
    resources.add_activating(claim(1, 12, "preview_window", "p", 1));
    resources.finish_activation(claim(2, 11, "preview_window", "p", 1), "l2");
    assert_eq!(resources.release_session_reservations(10), 2);
    assert!(resources.has_reservation(1, 11, "b"));
    assert_eq!(resources.release_owner(1), 2);
    assert!(!resources.surface_claimed(12, &identity("preview_window", "p", 1)));
    assert!(resources.surface_claimed(11, &identity("preview_window", "p", 1)));
    resources.remove_activating(&claim(9, 9, "preview_window", "p", 1));
}
