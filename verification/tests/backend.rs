use clipmesh::clipboard::{
    keep_wanted, narrow, refuse_primary_features, report_initial, resolve_kind, Backend,
    BackendKind, ClipboardEvent,
};
use clipmesh::config::{BackendChoice, Config, LinkSelections};
use clipmesh::offer::Offer;
use clipmesh::protocol::SelectionKind;

fn test_cfg() -> Config {
    Config::for_test("s")
}

fn link(clipboard_to_selection: bool, selection_to_clipboard: bool) -> LinkSelections {
    LinkSelections {
        clipboard_to_selection,
        selection_to_clipboard,
    }
}

#[test]
fn a_forced_backend_is_never_probed() {
    let probe = || panic!("a forced choice must not touch the compositor");
    assert_eq!(
        resolve_kind(BackendChoice::DataControl, probe),
        BackendKind::DataControl
    );
    assert_eq!(
        resolve_kind(BackendChoice::Mutter, probe),
        BackendKind::Mutter
    );
}

#[test]
fn auto_follows_the_probe_and_falls_back_to_mutter_when_it_cannot_ask() {
    assert_eq!(
        resolve_kind(BackendChoice::Auto, || Ok(true)),
        BackendKind::DataControl
    );
    assert_eq!(
        resolve_kind(BackendChoice::Auto, || Ok(false)),
        BackendKind::Mutter
    );
    // No Wayland display to probe is not a reason to refuse to start: the
    // Mutter backend only needs D-Bus, and this is a GNOME host whose
    // WAYLAND_DISPLAY never reached the service environment.
    assert_eq!(
        resolve_kind(BackendChoice::Auto, || Err(
            "no Wayland display".to_string()
        )),
        BackendKind::Mutter
    );
}

#[test]
fn primary_features_are_fine_on_data_control() {
    let mut cfg = test_cfg();
    cfg.sync_selection = true;
    cfg.link_selections = link(true, true);
    assert!(refuse_primary_features(&cfg, BackendKind::DataControl).is_ok());
}

#[test]
fn mutter_without_primary_features_is_fine() {
    assert!(refuse_primary_features(&test_cfg(), BackendKind::Mutter).is_ok());
}

#[test]
fn mutter_refuses_each_primary_feature_by_name() {
    let mut cfg = test_cfg();
    cfg.sync_selection = true;
    let err = refuse_primary_features(&cfg, BackendKind::Mutter).unwrap_err();
    assert!(err.contains("sync_selection"), "{err}");
    assert!(!err.contains("link_selections"), "{err}");

    let mut cfg = test_cfg();
    cfg.link_selections = link(true, false);
    let err = refuse_primary_features(&cfg, BackendKind::Mutter).unwrap_err();
    assert!(err.contains("link_selections"), "{err}");

    let mut cfg = test_cfg();
    cfg.sync_selection = true;
    cfg.link_selections = link(false, true);
    let err = refuse_primary_features(&cfg, BackendKind::Mutter).unwrap_err();
    assert!(err.contains("sync_selection and link_selections"), "{err}");
}

#[test]
fn the_backend_follows_the_choice_and_carries_the_limit() {
    let mut cfg = test_cfg();
    cfg.max_payload_size = 99;
    match Backend::select(BackendChoice::DataControl, &cfg, || Ok(false)) {
        Ok(Backend::Wayland(clip)) => assert_eq!(clip.max_payload(), 99),
        _ => panic!("data-control was asked for"),
    }
    assert!(matches!(
        Backend::select(BackendChoice::Auto, &cfg, || Ok(false)),
        Ok(Backend::Mutter(_))
    ));
    cfg.sync_selection = true;
    assert!(Backend::select(BackendChoice::Mutter, &cfg, || Ok(true)).is_err());
}

fn offer(pairs: &[(&str, &[u8])]) -> Offer {
    pairs
        .iter()
        .map(|(m, b)| (m.to_string(), b.to_vec()))
        .collect()
}

#[test]
fn an_empty_selection_has_nothing_to_report() {
    let kind = SelectionKind::Selection;
    assert_eq!(report_initial(kind, None), None);
    assert_eq!(report_initial(kind, Some(Offer::new())), None);
    let o = offer(&[("a/b", b"x")]);
    assert_eq!(
        report_initial(kind, Some(o.clone())),
        Some(ClipboardEvent::Initial { kind, offer: o })
    );
}

#[test]
fn narrowing_keeps_the_matching_type_and_its_bytes() {
    let o = offer(&[("text/html", b"<b>"), ("image/PNG", b"p")]);
    assert_eq!(narrow(&o, "image/png"), offer(&[("image/PNG", b"p")]));
    assert!(narrow(&o, "a/b").is_empty());
    let types = ["text/html".to_string(), "image/PNG".to_string()];
    assert_eq!(keep_wanted(&types, None), types);
    assert_eq!(keep_wanted(&types, Some("IMAGE/png")), ["image/PNG"]);
}
