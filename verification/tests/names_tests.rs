use dggal::names::{grid_system_from_name, GridSystem};

#[test]
fn full_names_resolve() {
    assert_eq!(grid_system_from_name(b"isea3h"), Some(GridSystem::Isea3h));
    assert_eq!(grid_system_from_name(b"isea9r"), Some(GridSystem::Isea9r));
    assert_eq!(grid_system_from_name(b"ivea3h"), Some(GridSystem::Ivea3h));
    assert_eq!(grid_system_from_name(b"ivea9r"), Some(GridSystem::Ivea9r));
    assert_eq!(grid_system_from_name(b"rtea3h"), Some(GridSystem::Rtea3h));
    assert_eq!(grid_system_from_name(b"rtea9r"), Some(GridSystem::Rtea9r));
    assert_eq!(grid_system_from_name(b"rhealpix"), Some(GridSystem::RHealpix));
    assert_eq!(
        grid_system_from_name(b"gnosisglobalgrid"),
        Some(GridSystem::GnosisGlobalGrid)
    );
}

#[test]
fn short_aliases_resolve() {
    assert_eq!(grid_system_from_name(b"i3h"), Some(GridSystem::Isea3h));
    assert_eq!(grid_system_from_name(b"i9r"), Some(GridSystem::Isea9r));
    assert_eq!(grid_system_from_name(b"v3h"), Some(GridSystem::Ivea3h));
    assert_eq!(grid_system_from_name(b"v9r"), Some(GridSystem::Ivea9r));
    assert_eq!(grid_system_from_name(b"r3h"), Some(GridSystem::Rtea3h));
    assert_eq!(grid_system_from_name(b"r9r"), Some(GridSystem::Rtea9r));
    assert_eq!(grid_system_from_name(b"rhp"), Some(GridSystem::RHealpix));
    assert_eq!(grid_system_from_name(b"ggg"), Some(GridSystem::GnosisGlobalGrid));
}

#[test]
fn matching_ignores_case() {
    assert_eq!(grid_system_from_name(b"ISEA3H"), Some(GridSystem::Isea3h));
    assert_eq!(grid_system_from_name(b"IsEa3H"), Some(GridSystem::Isea3h));
    assert_eq!(grid_system_from_name(b"rHEALPix"), Some(GridSystem::RHealpix));
    assert_eq!(grid_system_from_name(b"GGG"), Some(GridSystem::GnosisGlobalGrid));
}

#[test]
fn unknown_names_resolve_to_nothing() {
    assert_eq!(grid_system_from_name(b""), None);
    assert_eq!(grid_system_from_name(b"isea"), None);
    assert_eq!(grid_system_from_name(b"healpix"), None);
    assert_eq!(grid_system_from_name(b"isea3hh"), None);
}

#[test]
fn class_names_are_canonical() {
    assert_eq!(GridSystem::Isea3h.class_name(), "ISEA3H");
    assert_eq!(GridSystem::Isea9r.class_name(), "ISEA9R");
    assert_eq!(GridSystem::Ivea3h.class_name(), "IVEA3H");
    assert_eq!(GridSystem::Ivea9r.class_name(), "IVEA9R");
    assert_eq!(GridSystem::Rtea3h.class_name(), "RTEA3H");
    assert_eq!(GridSystem::Rtea9r.class_name(), "RTEA9R");
    assert_eq!(GridSystem::RHealpix.class_name(), "rHEALPix");
    assert_eq!(GridSystem::GnosisGlobalGrid.class_name(), "GNOSISGlobalGrid");
}
