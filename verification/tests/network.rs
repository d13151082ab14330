use std::sync::atomic::Ordering;

use asterfiles::errors::{ErrorKind, IoError};
use asterfiles::network::{
    classify_network_error, device_root_target, is_unc_path, is_unc_server_root, network_device_id,
    unc_host_key, DiscoveryCoordinator, DiscoveryState, NetworkDeviceId, NetworkDeviceTarget,
    NetworkErrorKind, NetworkExecutionKey, NetworkLocation, NetworkLocationCatalog,
    NetworkLocationCatalogError, NetworkLocationSource, NetworkTarget,
};

fn wide(text: &str) -> Vec<u16> {
    text.encode_utf16().collect()
}

fn device(name: &str) -> NetworkDeviceTarget {
    NetworkDeviceTarget {
        id: NetworkDeviceId(wide(name)),
        display_name: name.into(),
        shell_identity: None,
        unc_path: None,
    }
}

fn imported(id: u64, sort_order: u32) -> NetworkLocation {
    NetworkLocation {
        id,
        source: NetworkLocationSource::WindowsImported,
        display_name: "Explorer".into(),
        sort_order,
        target: NetworkTarget::WindowsPath(wide(r"\\server\imported")),
    }
}

fn hash(path: &str) -> u64 {
    let mut value = 0xcbf29ce484222325u64;
    for unit in path.encode_utf16() {
        for byte in unit.to_le_bytes() {
            value = (value ^ u64::from(byte)).wrapping_mul(0x100000001b3);
        }
    }
    value
}

#[test]
fn owned_location_crud_preserves_imported_items_and_order() {
    let imported = imported(7, 77);
    let mut catalog = NetworkLocationCatalog::new(vec![imported.clone()]);
    let first = catalog.add_unc(wide(r"\\server\first"), "First".into()).unwrap();
    let second = catalog.add_unc(wide(r"\\server\second"), "Second".into()).unwrap();
    catalog.rename(second, "Renamed".into()).unwrap();
    catalog.move_to(second, 0).unwrap();
    assert_eq!(catalog.locations()[0], imported);
    let owned = catalog
        .locations()
        .iter()
        .filter(|location| location.source == NetworkLocationSource::AsterOwned)
        .collect::<Vec<_>>();
    assert_eq!(
        owned.iter().map(|item| item.id).collect::<Vec<_>>(),
        [second, first]
    );
    assert_eq!(
        owned.iter().map(|item| item.sort_order).collect::<Vec<_>>(),
        [0, 1]
    );
    assert_eq!(owned[0].display_name, "Renamed");
    assert_eq!(catalog.remove(first).unwrap().id, first);
}

#[test]
fn owned_location_catalog_rejects_invalid_mutation() {
    let mut catalog = NetworkLocationCatalog::new(vec![imported(7, 0)]);
    assert_eq!(
        catalog.rename(7, "No".into()),
        Err(NetworkLocationCatalogError::ImportedReadOnly)
    );
    assert_eq!(
        catalog.add_unc(wide(r"C:\local"), "Local".into()),
        Err(NetworkLocationCatalogError::InvalidUncPath)
    );
    assert_eq!(
        catalog.add_unc(wide(r"\\server\new"), "   ".into()),
        Err(NetworkLocationCatalogError::EmptyName)
    );
    catalog.add_unc(wide(r"\\server\new"), "New".into()).unwrap();
    assert_eq!(
        catalog.add_unc(wide(r"\\server\new"), "Duplicate".into()),
        Err(NetworkLocationCatalogError::DuplicateTarget)
    );
}

#[test]
fn shell_only_import_retains_an_executable_windows_identity() {
    let location = NetworkLocation {
        id: 9,
        source: NetworkLocationSource::WindowsImported,
        display_name: "Virtual network location".into(),
        sort_order: 0,
        target: NetworkTarget::ShellItemId(wide("shell:::{virtual-network-location}")),
    };
    assert!(matches!(location.target, NetworkTarget::ShellItemId(_)));
}

#[test]
fn stale_results_are_rejected() {
    let mut c = DiscoveryCoordinator::new();
    let (old, old_cancel) = c.begin();
    let (current, _) = c.begin();
    assert!(old_cancel.load(Ordering::Acquire));
    assert!(!c.append(old, vec![device("old")]));
    assert!(c.append(current, vec![device("current")]));
    assert!(c.finish(current));
    assert_eq!(c.devices()[0].display_name, "current");
}

#[test]
fn cancellation_rejects_late_batches() {
    let mut c = DiscoveryCoordinator::new();
    let (request, cancel) = c.begin();
    c.cancel_current();
    assert!(cancel.load(Ordering::Acquire));
    assert_eq!(c.state(), DiscoveryState::Cancelled);
    assert!(!c.append(request, vec![device("late")]));
}

#[test]
fn empty_and_failed_states_are_distinct() {
    let mut c = DiscoveryCoordinator::new();
    let (empty, _) = c.begin();
    assert!(c.finish(empty));
    assert_eq!(c.state(), DiscoveryState::Empty);
    let (failed, _) = c.begin();
    assert!(c.fail(failed, NetworkErrorKind::TimedOut));
    assert_eq!(c.state(), DiscoveryState::Failed);
    assert_eq!(c.error(), Some(NetworkErrorKind::TimedOut));
}

#[test]
fn unc_routing_accepts_non_unicode_identity_without_lossy_conversion() {
    let path = [b'\\' as u16, b'\\' as u16, b's' as u16, 0xd800];
    assert!(is_unc_path(&path));
    assert!(is_unc_server_root(&path));
    assert_eq!(unc_host_key(&path), None);
}

#[test]
fn extended_local_paths_are_not_routed_as_unc() {
    assert!(!is_unc_path(&wide(r"\\?\C:\folder")));
    assert!(!is_unc_path(&wide(r"\\?\Volume{01234567}\folder")));
    assert!(!is_unc_path(&wide(r"\\.\PhysicalDrive0")));
    assert!(is_unc_path(&wide(r"\\?\UNC\server\share")));
    assert!(is_unc_path(&wide(r"\\server\share")));
}

#[test]
fn unc_host_key_is_normalized() {
    assert!(is_unc_path(&wide(r"\\Server\Share")));
    assert!(is_unc_path(&wide("//SERVER/Share")));
    assert_eq!(unc_host_key(&wide(r"\\Server\Share")), Some("server".into()));
    assert_eq!(
        unc_host_key(&wide(r"\\?\UNC\SERVER\Share")),
        Some("server".into())
    );
    assert_eq!(unc_host_key(&wide(r"C:\Share")), None);
}

#[test]
fn execution_key_groups_shares_by_raw_unc_host() {
    assert_eq!(
        NetworkExecutionKey::from_unc(&wide(r"\\SERVER\one")),
        NetworkExecutionKey::from_unc(&wide(r"\\server\two"))
    );
    assert_ne!(
        NetworkExecutionKey::from_unc(&wide(r"\\server\one")),
        NetworkExecutionKey::from_unc(&wide(r"\\other\one"))
    );
    assert_eq!(NetworkExecutionKey::from_unc(&wide(r"C:\one")), None);
}

#[test]
fn distinguishes_server_roots_from_shares() {
    assert!(is_unc_server_root(&wide(r"\\server")));
    assert!(is_unc_server_root(&wide(r"\\server\")));
    assert!(!is_unc_server_root(&wide(r"\\server\share")));
    assert!(!is_unc_server_root(&wide(r"C:\server")));
}

#[test]
fn network_errors_are_classified() {
    assert_eq!(
        classify_network_error(&IoError::from_kind(ErrorKind::TimedOut)),
        NetworkErrorKind::TimedOut
    );
    assert_eq!(
        classify_network_error(&IoError::from_kind(ErrorKind::PermissionDenied)),
        NetworkErrorKind::PermissionDenied
    );
    assert_eq!(
        classify_network_error(&IoError::from_kind(ErrorKind::ConnectionReset)),
        NetworkErrorKind::Disconnected
    );
}

#[test]
fn every_kind_of_network_failure_is_told_apart() {
    for (kind, expected) in [
        (ErrorKind::NotFound, NetworkErrorKind::NotFound),
        (ErrorKind::Interrupted, NetworkErrorKind::Cancelled),
        (ErrorKind::HostUnreachable, NetworkErrorKind::Disconnected),
        (ErrorKind::InvalidData, NetworkErrorKind::InvalidTarget),
        (ErrorKind::InvalidInput, NetworkErrorKind::InvalidTarget),
        (ErrorKind::BrokenPipe, NetworkErrorKind::Failed),
        (ErrorKind::Other, NetworkErrorKind::Failed),
    ] {
        assert_eq!(classify_network_error(&IoError::from_kind(kind)), expected);
    }
}

#[test]
fn location_ids_come_from_the_path_and_never_repeat() {
    let path = r"\\server\first";
    let mut catalog = NetworkLocationCatalog::new(vec![]);
    assert_eq!(catalog.add_unc(wide(path), "First".into()), Ok(hash(path)));
    assert_eq!(catalog.locations()[0].sort_order, 0);
    let taken = NetworkLocation { id: hash(path), ..imported(1, 4) };
    let mut catalog = NetworkLocationCatalog::new(vec![taken]);
    assert_eq!(catalog.add_unc(wide(path), "First".into()), Ok(hash(path) + 1));
    assert_eq!(catalog.locations()[1].sort_order, 5);
}

#[test]
fn catalog_refusals_name_their_reason() {
    let mut catalog = NetworkLocationCatalog::new(vec![imported(7, 0)]);
    let id = catalog.add_unc(wide(r"\\server\a"), "A".into()).unwrap();
    assert_eq!(
        catalog.rename(id, " \t".into()),
        Err(NetworkLocationCatalogError::EmptyName)
    );
    assert_eq!(
        catalog.rename(1, "No".into()),
        Err(NetworkLocationCatalogError::NotFound)
    );
    assert!(matches!(
        catalog.remove(7),
        Err(NetworkLocationCatalogError::ImportedReadOnly)
    ));
    assert!(matches!(
        catalog.move_to(1, 0),
        Err(NetworkLocationCatalogError::NotFound)
    ));
    // The same place, written with other separators.
    assert_eq!(
        catalog.add_unc(wide("//server/a"), "Again".into()),
        Err(NetworkLocationCatalogError::DuplicateTarget)
    );
}

#[test]
fn moving_counts_only_owned_locations() {
    let mut catalog = NetworkLocationCatalog::new(vec![imported(7, 9)]);
    let a = catalog.add_unc(wide(r"\\server\a"), "A".into()).unwrap();
    let b = catalog.add_unc(wide(r"\\server\b"), "B".into()).unwrap();
    let c = catalog.add_unc(wide(r"\\server\c"), "C".into()).unwrap();
    catalog.move_to(a, 99).unwrap();
    let order = |catalog: &NetworkLocationCatalog| {
        catalog.locations().iter().map(|item| item.id).collect::<Vec<_>>()
    };
    assert_eq!(order(&catalog), [7, b, c, a]);
    catalog.move_to(c, 0).unwrap();
    assert_eq!(order(&catalog), [7, c, b, a]);
    assert_eq!(catalog.locations()[0].sort_order, 9);
    assert_eq!(
        catalog.locations().iter().skip(1).map(|item| item.sort_order).collect::<Vec<_>>(),
        [0, 1, 2]
    );
    catalog.remove(c).unwrap();
    assert_eq!(order(&catalog), [7, b, a]);
    assert_eq!(catalog.locations()[1].sort_order, 0);
}

#[test]
fn a_finished_discovery_takes_nothing_more() {
    let mut c = DiscoveryCoordinator::default();
    assert_eq!(c.state(), DiscoveryState::Idle);
    let (request, _) = c.begin();
    assert_eq!(c.generation(), request);
    assert!(c.append(request, vec![device("one")]));
    assert!(c.finish(request));
    assert_eq!(c.state(), DiscoveryState::Complete);
    assert!(!c.append(request, vec![device("two")]));
    assert!(!c.fail(request, NetworkErrorKind::Failed));
    assert_eq!(c.devices().len(), 1);
    let (request, flag) = c.begin();
    assert!(c.accepts(request));
    assert!(c.devices().is_empty());
    flag.store(true, Ordering::Release);
    assert!(!c.accepts(request));
    assert!(!c.finish(request));
}

#[test]
fn a_cancelled_failure_counts_as_cancelled() {
    let mut c = DiscoveryCoordinator::new();
    let (request, _) = c.begin();
    assert!(c.fail(request, NetworkErrorKind::Cancelled));
    assert_eq!(c.state(), DiscoveryState::Cancelled);
}

#[test]
fn a_device_leads_to_its_network_path() {
    assert_eq!(device_root_target(&device("a")), None);
    let mut known = device("a");
    known.unc_path = Some(wide(r"\\a"));
    assert_eq!(device_root_target(&known), Some(wide(r"\\a")));
    assert_eq!(network_device_id(&wide(r"\\a")).0, wide(r"\\a"));
}

#[test]
fn a_new_catalogue_is_empty() {
    assert!(NetworkLocationCatalog::default().locations().is_empty());
}

#[test]
fn an_error_stands_exactly_where_one_was_reported() {
    let mut c = DiscoveryCoordinator::new();
    let (request, flag) = c.begin();
    assert!(!flag.load(Ordering::Acquire));
    assert!(c.fail(request, NetworkErrorKind::Cancelled));
    assert_eq!(c.state(), DiscoveryState::Cancelled);
    assert_eq!(c.error(), Some(NetworkErrorKind::Cancelled));
    c.cancel_current();
    assert!(!flag.load(Ordering::Acquire));
    let (request, flag) = c.begin();
    assert_eq!(c.error(), None);
    assert!(c.stop().is_some());
    assert!(!flag.load(Ordering::Acquire));
    assert_eq!(c.state(), DiscoveryState::Cancelled);
    assert_eq!(c.error(), None);
    assert!(!c.finish(request));
    assert!(c.stop().is_none());
    let (request, flag) = c.begin();
    let _ = c.begin();
    assert!(flag.load(Ordering::Acquire));
    assert!(!c.accepts(request));
}
