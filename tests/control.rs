use systemd_manager::{
    disable_unit_files, enable_unit_files, get_unit_file_state, parse_units_from_message, start_unit, stop_unit,
    unit_name_of, BusError, BusType, BusValue, Config, DbusHandle, UnitState,
};

fn no_changes() -> BusValue {
    BusValue::Array(vec![], String::from("a(sss)"))
}

fn one_change() -> BusValue {
    BusValue::Array(
        vec![BusValue::Struct(vec![
            BusValue::Str(String::from("symlink")),
            BusValue::Str(String::from("/etc/systemd/system/multi-user.target.wants/sshd.service")),
            BusValue::Str(String::from("/usr/lib/systemd/system/sshd.service")),
        ])],
        String::from("a(sss)"),
    )
}

fn bus_error() -> BusError {
    BusError {
        name: String::from("org.freedesktop.systemd1.NoSuchUnit"),
        message: String::from("Unit sshd.service does not exist."),
    }
}

fn string_arg(v: &BusValue) -> &str {
    match v {
        BusValue::Str(s) => s.as_str(),
        other => panic!("not a string: {:?}", other),
    }
}

#[test]
fn enable_of_enabled_unit_reports_already_enabled() {
    let reply = Ok(vec![BusValue::Bool(true), no_changes()]);
    assert_eq!(enable_unit_files("sshd.service", &reply), Ok(true));
}

#[test]
fn enable_with_changes_reports_newly_enabled() {
    let reply = Ok(vec![BusValue::Bool(true), one_change()]);
    assert_eq!(enable_unit_files("sshd.service", &reply), Ok(false));
    let reply = Ok(vec![BusValue::Bool(false), no_changes()]);
    assert_eq!(enable_unit_files("sshd.service", &reply), Ok(false));
    let reply = Ok(vec![BusValue::Bool(true), BusValue::Array(vec![], String::from("as"))]);
    assert_eq!(enable_unit_files("sshd.service", &reply), Ok(false));
    assert_eq!(enable_unit_files("sshd.service", &Ok(vec![])), Ok(false));
}

#[test]
fn enable_error_names_the_unit() {
    let r = enable_unit_files("sshd.service", &Err(bus_error()));
    let d = r.unwrap_err();
    assert!(d.contains("sshd.service"));
    assert_eq!(
        d,
        "Error enabling sshd.service:\norg.freedesktop.systemd1.NoSuchUnit: Unit sshd.service does not exist."
    );
}

#[test]
fn disable_reports_already_or_newly_disabled() {
    assert_eq!(disable_unit_files("cups.service", &Ok(vec![no_changes()])), Ok(true));
    assert_eq!(disable_unit_files("cups.service", &Ok(vec![one_change()])), Ok(false));
    let d = disable_unit_files("cups.service", &Err(bus_error())).unwrap_err();
    assert!(d.starts_with("Error disabling cups.service:\n"));
}

#[test]
fn start_and_stop_read_only_success_or_error() {
    assert_eq!(start_unit("cups.service", &Ok(vec![BusValue::Other])), Ok(()));
    assert_eq!(stop_unit("cups.service", &Ok(vec![])), Ok(()));
    let d = start_unit("cups.service", &Err(bus_error())).unwrap_err();
    assert!(d.starts_with("cups.service failed to start:\n"));
    let d = stop_unit("cups.service", &Err(bus_error())).unwrap_err();
    assert!(d.starts_with("cups.service failed to stop:\n"));
}

#[test]
fn file_state_is_enabled_in_any_case_only() {
    assert!(get_unit_file_state(&vec![BusValue::Str(String::from("enabled"))]));
    assert!(get_unit_file_state(&vec![BusValue::Str(String::from("ENABLED"))]));
    assert!(get_unit_file_state(&vec![BusValue::Str(String::from("EnAbLeD"))]));
    assert!(!get_unit_file_state(&vec![BusValue::Str(String::from("enabled-runtime"))]));
    assert!(!get_unit_file_state(&vec![BusValue::Str(String::from("disabled"))]));
    assert!(!get_unit_file_state(&vec![BusValue::Str(String::from("enable"))]));
    assert!(!get_unit_file_state(&vec![BusValue::Bool(true)]));
    assert!(!get_unit_file_state(&vec![]));
}

#[test]
fn requests_address_the_manager() {
    let h = DbusHandle::new(BusType::Session);
    assert_eq!(h.bus_type(), BusType::Session);
    let c = h.enable_unit_files_request("sshd.service");
    assert_eq!(c.destination, "org.freedesktop.systemd1");
    assert_eq!(c.path, "/org/freedesktop/systemd1");
    assert_eq!(c.interface, "org.freedesktop.systemd1.Manager");
    assert_eq!(c.method, "EnableUnitFiles");
    assert_eq!(c.args.len(), 3);
    match &c.args[0] {
        BusValue::Array(items, sig) => {
            assert_eq!(sig, "as");
            assert_eq!(items.len(), 1);
            assert_eq!(string_arg(&items[0]), "sshd.service");
        }
        other => panic!("not an array: {:?}", other),
    }
    assert!(matches!(c.args[1], BusValue::Bool(false)));
    assert!(matches!(c.args[2], BusValue::Bool(true)));

    let c = h.disable_unit_files_request("sshd.service");
    assert_eq!(c.method, "DisableUnitFiles");
    assert_eq!(c.args.len(), 2);
    assert!(matches!(c.args[1], BusValue::Bool(false)));

    let c = h.start_unit_request("sshd.service");
    assert_eq!(c.method, "StartUnit");
    assert_eq!(string_arg(&c.args[0]), "sshd.service");
    assert_eq!(string_arg(&c.args[1]), "fail");

    let c = h.stop_unit_request("sshd.service");
    assert_eq!(c.method, "StopUnit");
    assert_eq!(string_arg(&c.args[1]), "fail");

    let c = h.list_unit_files_request();
    assert_eq!(c.method, "ListUnitFiles");
    assert!(c.args.is_empty());
}

#[test]
fn state_request_takes_the_unit_name() {
    let h = DbusHandle::new(BusType::System);
    let c = h.get_unit_file_state_request("/usr/lib/systemd/system/sshd.service");
    assert_eq!(c.method, "GetUnitFileState");
    assert_eq!(string_arg(&c.args[0]), "sshd.service");
    let c = h.get_unit_file_state_request("sshd.service");
    assert_eq!(string_arg(&c.args[0]), "sshd.service");
    assert_eq!(unit_name_of("/a/b/"), "");
    assert_eq!(unit_name_of("a/b.timer"), "b.timer");
}

#[test]
fn default_config_uses_the_system_bus() {
    assert_eq!(Config::default().bus_type, BusType::System);
}

#[test]
fn disabling_shows_in_the_next_listing_only() {
    let first = parse_units_from_message(&vec![
        String::from("/usr/lib/systemd/system/cups.service"),
        String::from("enabled"),
    ])
    .unwrap();
    assert_eq!(first[0].state, UnitState::Enabled);
    assert_eq!(disable_unit_files("cups.service", &Ok(vec![one_change()])), Ok(false));
    assert_eq!(first[0].state, UnitState::Enabled);
    let second = parse_units_from_message(&vec![
        String::from("/usr/lib/systemd/system/cups.service"),
        String::from("disabled"),
    ])
    .unwrap();
    assert_eq!(second[0].name, first[0].name);
    assert_eq!(second[0].state, UnitState::Disabled);
}
