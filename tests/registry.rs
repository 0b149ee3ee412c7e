use systemd_manager::{
    collect_togglable_services, collect_togglable_sockets, collect_togglable_timers, list_unit_files,
    parse_units_from_message, BusValue, DecodeError, SystemdUnit, UnitState, UnitType,
};

fn record(path: &str, state: &str) -> BusValue {
    BusValue::Struct(vec![BusValue::Str(path.to_string()), BusValue::Str(state.to_string())])
}

fn list_reply(records: Vec<BusValue>) -> Vec<BusValue> {
    vec![BusValue::Array(records, String::from("a(ss)"))]
}

fn fields(items: &[&str]) -> Vec<String> {
    items.iter().map(|s| s.to_string()).collect()
}

fn names(units: &[SystemdUnit]) -> Vec<String> {
    units.iter().map(|u| u.name.clone()).collect()
}

#[test]
fn every_extension_names_its_type() {
    let table = [
        ("automount", UnitType::Automount),
        ("busname", UnitType::Busname),
        ("mount", UnitType::Mount),
        ("path", UnitType::Path),
        ("scope", UnitType::Scope),
        ("service", UnitType::Service),
        ("slice", UnitType::Slice),
        ("socket", UnitType::Socket),
        ("target", UnitType::Target),
        ("timer", UnitType::Timer),
        ("swap", UnitType::Swap),
    ];
    for (ext, t) in table {
        assert_eq!(UnitType::from_extension(ext), Ok(t));
        assert_eq!(UnitType::new(&format!("/usr/lib/systemd/system/x.{}", ext)), Ok(t));
    }
}

#[test]
fn unknown_extensions_are_refused() {
    for ext in ["", "Service", "services", "servic", "txt", "device"] {
        assert_eq!(UnitType::from_extension(ext), Err(DecodeError::UnknownUnitType));
    }
    assert_eq!(UnitType::new("/usr/lib/systemd/system/noext"), Err(DecodeError::UnknownUnitType));
    assert_eq!(UnitType::new("/usr/lib/systemd/system/.service"), Err(DecodeError::UnknownUnitType));
    assert_eq!(UnitType::new("/usr/lib/sys.d/unit"), Err(DecodeError::UnknownUnitType));
    assert_eq!(UnitType::new("a.b.timer"), Ok(UnitType::Timer));
    assert_eq!(UnitType::new("x.SERVICE"), Err(DecodeError::UnknownUnitType));
}

#[test]
fn every_initial_names_its_state() {
    let table = [
        ("static", UnitState::Static),
        ("disabled", UnitState::Disabled),
        ("enabled", UnitState::Enabled),
        ("enabled-runtime", UnitState::Enabled),
        ("indirect", UnitState::Indirect),
        ("linked", UnitState::Linked),
        ("masked", UnitState::Masked),
        ("bad", UnitState::Bad),
        ("generated", UnitState::Generated),
        ("alias", UnitState::Alias),
        ("transient", UnitState::Transient),
        ("s", UnitState::Static),
    ];
    for (text, s) in table {
        assert_eq!(UnitState::new(text), Ok(s));
    }
}

#[test]
fn unknown_states_are_refused() {
    for text in ["", "x", "Enabled", "unknown", " enabled"] {
        assert_eq!(UnitState::new(text), Err(DecodeError::UnknownUnitState));
    }
}

#[test]
fn reply_decodes_to_sorted_registry() {
    let reply = list_reply(vec![
        record("/usr/lib/systemd/system/sshd.service", "enabled"),
        record("/usr/lib/systemd/system/foo.path", "static"),
    ]);
    let units = list_unit_files(&reply).unwrap();
    assert_eq!(
        names(&units),
        vec!["/usr/lib/systemd/system/foo.path", "/usr/lib/systemd/system/sshd.service"]
    );
    assert_eq!(units[0].utype, UnitType::Path);
    assert_eq!(units[0].state, UnitState::Static);
    assert_eq!(units[1].utype, UnitType::Service);
    assert_eq!(units[1].state, UnitState::Enabled);
    assert_eq!(names(&collect_togglable_services(&units)), vec!["/usr/lib/systemd/system/sshd.service"]);
    assert!(collect_togglable_sockets(&units).is_empty());
    assert!(collect_togglable_timers(&units).is_empty());
}

#[test]
fn sort_is_by_full_pathname_and_stable() {
    let units = parse_units_from_message(&fields(&[
        "/usr/lib/b.service", "enabled",
        "/etc/z.service", "enabled",
        "/usr/lib/a.service", "disabled",
        "/usr/lib/b.service", "masked",
        "/usr/lib/a.socket", "static",
    ]))
    .unwrap();
    assert_eq!(
        names(&units),
        vec!["/etc/z.service", "/usr/lib/a.service", "/usr/lib/a.socket", "/usr/lib/b.service", "/usr/lib/b.service"]
    );
    assert_eq!(units[3].state, UnitState::Enabled);
    assert_eq!(units[4].state, UnitState::Masked);
}

#[test]
fn empty_reply_gives_empty_registry() {
    assert!(list_unit_files(&list_reply(vec![])).unwrap().is_empty());
    assert!(parse_units_from_message(&Vec::new()).unwrap().is_empty());
}

#[test]
fn odd_field_count_fails_whole_list() {
    let r = parse_units_from_message(&fields(&["/usr/lib/a.service", "enabled", "/usr/lib/b.service"]));
    assert_eq!(r.err(), Some(DecodeError::OddFieldCount));
    let reply = list_reply(vec![
        record("/usr/lib/a.service", "enabled"),
        BusValue::Struct(vec![BusValue::Str(String::from("/usr/lib/b.service"))]),
    ]);
    assert_eq!(list_unit_files(&reply).err(), Some(DecodeError::OddFieldCount));
}

#[test]
fn unknown_type_or_state_fails_whole_list() {
    let r = parse_units_from_message(&fields(&["/usr/lib/a.service", "enabled", "/usr/lib/b.conf", "enabled"]));
    assert_eq!(r.err(), Some(DecodeError::UnknownUnitType));
    let r = parse_units_from_message(&fields(&["/usr/lib/a.service", "enabled", "/usr/lib/b.timer", "weird"]));
    assert_eq!(r.err(), Some(DecodeError::UnknownUnitState));
    let r = parse_units_from_message(&fields(&["/usr/lib/a.conf", "weird"]));
    assert_eq!(r.err(), Some(DecodeError::UnknownUnitType));
}

#[test]
fn malformed_replies_are_refused() {
    let bad = [
        vec![],
        vec![BusValue::Str(String::from("x"))],
        vec![BusValue::Array(vec![BusValue::Str(String::from("/a.service"))], String::from("as"))],
        vec![BusValue::Array(
            vec![BusValue::Struct(vec![BusValue::Str(String::from("/a.service")), BusValue::Bool(true)])],
            String::from("a(sb)"),
        )],
        vec![list_reply(vec![]).remove(0), BusValue::Bool(true)],
    ];
    for reply in bad {
        assert_eq!(list_unit_files(&reply).err(), Some(DecodeError::MalformedReply));
    }
}

#[test]
fn togglable_services_leave_out_etc() {
    let units = parse_units_from_message(&fields(&[
        "/etc/systemd/system/own.service", "enabled",
        "/usr/lib/systemd/system/cups.service", "disabled",
        "/usr/lib/systemd/system/getty.service", "static",
        "/usr/lib/systemd/system/masked.service", "masked",
    ]))
    .unwrap();
    let services = collect_togglable_services(&units);
    assert_eq!(names(&services), vec!["/usr/lib/systemd/system/cups.service"]);
    assert!(services.iter().all(|u| !u.name.contains("/etc/")));
}

#[test]
fn togglable_lists_are_disjoint_by_type() {
    let units = parse_units_from_message(&fields(&[
        "/usr/lib/a.service", "enabled",
        "/usr/lib/a.socket", "enabled",
        "/usr/lib/a.timer", "disabled",
        "/usr/lib/b.socket", "static",
        "/etc/b.timer", "enabled",
        "/etc/b.socket", "disabled",
    ]))
    .unwrap();
    let services = collect_togglable_services(&units);
    let sockets = collect_togglable_sockets(&units);
    let timers = collect_togglable_timers(&units);
    assert_eq!(names(&services), vec!["/usr/lib/a.service"]);
    assert_eq!(names(&sockets), vec!["/etc/b.socket", "/usr/lib/a.socket"]);
    assert_eq!(names(&timers), vec!["/etc/b.timer", "/usr/lib/a.timer"]);
    for s in &services {
        assert!(sockets.iter().chain(timers.iter()).all(|u| u.utype != s.utype));
    }
    for s in &sockets {
        assert!(timers.iter().all(|u| u.utype != s.utype));
    }
}

#[test]
fn registry_search_reads_the_first_unit_of_a_path() {
    let units = parse_units_from_message(&fields(&[
        "/usr/lib/a.service", "enabled",
        "/usr/lib/b.service", "disabled",
        "/usr/lib/b.service", "enabled",
    ]))
    .unwrap();
    assert!(systemd_manager::registry::unit_file_enabled(&units, "/usr/lib/a.service"));
    assert!(!systemd_manager::registry::unit_file_enabled(&units, "/usr/lib/b.service"));
    assert!(!systemd_manager::registry::unit_file_enabled(&units, "/usr/lib/c.service"));
    assert!(!systemd_manager::registry::unit_file_enabled(&units, "a.service"));
}

#[test]
fn units_are_equal_by_pathname() {
    let a = SystemdUnit { name: String::from("/usr/lib/a.service"), state: UnitState::Enabled, utype: UnitType::Service };
    let b = SystemdUnit { name: String::from("/usr/lib/a.service"), state: UnitState::Disabled, utype: UnitType::Service };
    let c = SystemdUnit { name: String::from("/etc/a.service"), state: UnitState::Enabled, utype: UnitType::Service };
    assert!(a == b);
    assert!(a != c);
    assert!(a.copied() == a);
}
