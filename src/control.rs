//! The control client: the method calls that enable, disable, start and
//! stop units or ask for a unit's state, and the reading of their replies.
//!
//! A control call changes nothing that was decoded before: a registry listed
//! earlier still shows the old state, and only a new listing (or a new state
//! query) shows the new one.
use vstd::prelude::*;
use vstd::string::StringExecFns;

use crate::bus::{BusError, BusType, BusValue, MethodCall};
use crate::text::{chars_of, contains_seq, equals_ignoring_case, find_last, same_text, text_equals_ignoring_case};
use crate::unit::file_name_of;

verus! {

/// How long a caller waits for the reply to one call before it counts as a
/// bus error.
pub const REPLY_TIMEOUT_MS: i32 = 4000;

/// How the client is set up: which bus it talks to.
#[derive(Clone, Copy, Debug)]
pub struct Config {
    /// The bus to use: the system bus unless the user's own manager is wanted.
    pub bus_type: BusType,
}

impl Default for Config {
    fn default() -> (r: Config)
        ensures
            r.bus_type == BusType::System,
    {
        Config { bus_type: BusType::System }
    }
}

/// The service manager's well-known bus name.
pub open spec fn manager_destination() -> Seq<char> {
    "org.freedesktop.systemd1"@
}

/// The object path of the service manager.
pub open spec fn manager_path() -> Seq<char> {
    "/org/freedesktop/systemd1"@
}

/// The interface of the service manager's methods.
pub open spec fn manager_interface() -> Seq<char> {
    "org.freedesktop.systemd1.Manager"@
}

/// Whether `c` calls `method` on the service manager.
pub open spec fn calls_manager(c: MethodCall, method: Seq<char>) -> bool {
    &&& c.destination@ == manager_destination()
    &&& c.path@ == manager_path()
    &&& c.interface@ == manager_interface()
    &&& c.method@ == method
}

/// Whether `v` is an array holding exactly the one string `s`.
pub open spec fn is_string_list_of(v: BusValue, s: Seq<char>) -> bool {
    match v {
        BusValue::Array(items, sig) => sig@ == "as"@ && items@.len() == 1 && (items@[0] matches BusValue::Str(x) && x@ == s),
        _ => false,
    }
}

/// Whether `v` is the given string.
pub open spec fn is_str(v: BusValue, s: Seq<char>) -> bool {
    v matches BusValue::Str(x) && x@ == s
}

/// Whether `v` is the given boolean.
pub open spec fn is_bool(v: BusValue, b: bool) -> bool {
    v matches BusValue::Bool(x) && x == b
}

/// The handle through which the service manager on one bus is addressed.
#[derive(Clone, Copy, Debug)]
pub struct DbusHandle {
    bus_type: BusType,
}

impl DbusHandle {
    /// The bus this handle talks to.
    pub closed spec fn spec_bus_type(self) -> BusType {
        self.bus_type
    }

    /// A handle for the manager on the given bus.
    pub fn new(bus_type: BusType) -> (r: DbusHandle)
        ensures
            r.spec_bus_type() == bus_type,
    {
        DbusHandle { bus_type }
    }

    /// The bus this handle talks to.
    pub fn bus_type(&self) -> (r: BusType)
        ensures
            r == self.spec_bus_type(),
    {
        self.bus_type
    }

    /// A call of `function_name` on the service manager, without arguments.
    pub fn call(&self, function_name: &str) -> (r: MethodCall)
        ensures
            calls_manager(r, function_name@),
            r.args@.len() == 0,
    {
        MethodCall {
            destination: String::from_str("org.freedesktop.systemd1"),
            path: String::from_str("/org/freedesktop/systemd1"),
            interface: String::from_str("org.freedesktop.systemd1.Manager"),
            method: String::from_str(function_name),
            args: Vec::new(),
        }
    }

    /// The call that lists all unit files; its reply is read by
    /// `list_unit_files`.
    pub fn list_unit_files_request(&self) -> (r: MethodCall)
        ensures
            calls_manager(r, "ListUnitFiles"@),
            r.args@.len() == 0,
    {
        self.call("ListUnitFiles")
    }

    /// The call that asks for the file state of a unit. A pathname is cut
    /// down to its file name, the unit's name.
    pub fn get_unit_file_state_request(&self, name: &str) -> (r: MethodCall)
        ensures
            calls_manager(r, "GetUnitFileState"@),
            r.args@.len() == 1,
            is_str(r.args@[0], file_name_of(name@)),
    {
        let mut r = self.call("GetUnitFileState");
        r.args.push(BusValue::Str(unit_name_of(name)));
        r
    }

    /// The call that enables a unit file: not for this boot only, and
    /// replacing conflicting links.
    pub fn enable_unit_files_request(&self, unit: &str) -> (r: MethodCall)
        ensures
            calls_manager(r, "EnableUnitFiles"@),
            r.args@.len() == 3,
            is_string_list_of(r.args@[0], unit@),
            is_bool(r.args@[1], false),
            is_bool(r.args@[2], true),
    {
        let mut r = self.call("EnableUnitFiles");
        r.args.push(unit_list(unit));
        r.args.push(BusValue::Bool(false));
        r.args.push(BusValue::Bool(true));
        r
    }

    /// The call that disables a unit file, not for this boot only.
    pub fn disable_unit_files_request(&self, unit: &str) -> (r: MethodCall)
        ensures
            calls_manager(r, "DisableUnitFiles"@),
            r.args@.len() == 2,
            is_string_list_of(r.args@[0], unit@),
            is_bool(r.args@[1], false),
    {
        let mut r = self.call("DisableUnitFiles");
        r.args.push(unit_list(unit));
        r.args.push(BusValue::Bool(false));
        r
    }

    /// The call that starts a unit, failing if that conflicts with a job
    /// already queued.
    pub fn start_unit_request(&self, unit: &str) -> (r: MethodCall)
        ensures
            calls_manager(r, "StartUnit"@),
            r.args@.len() == 2,
            is_str(r.args@[0], unit@),
            is_str(r.args@[1], "fail"@),
    {
        let mut r = self.call("StartUnit");
        r.args.push(BusValue::Str(String::from_str(unit)));
        r.args.push(BusValue::Str(String::from_str("fail")));
        r
    }

    /// The call that stops a unit, failing if that conflicts with a job
    /// already queued.
    pub fn stop_unit_request(&self, unit: &str) -> (r: MethodCall)
        ensures
            calls_manager(r, "StopUnit"@),
            r.args@.len() == 2,
            is_str(r.args@[0], unit@),
            is_str(r.args@[1], "fail"@),
    {
        let mut r = self.call("StopUnit");
        r.args.push(BusValue::Str(String::from_str(unit)));
        r.args.push(BusValue::Str(String::from_str("fail")));
        r
    }
}

/// An array holding the one string `unit`.
fn unit_list(unit: &str) -> (r: BusValue)
    ensures
        is_string_list_of(r, unit@),
{
    let mut items: Vec<BusValue> = Vec::new();
    items.push(BusValue::Str(String::from_str(unit)));
    BusValue::Array(items, String::from_str("as"))
}

/// The name of a unit given by name or by pathname: what follows the last
/// `/`, or the whole text when there is none.
pub fn unit_name_of(name: &str) -> (r: String)
    ensures
        r@ == file_name_of(name@),
{
    let p = chars_of(name);
    let n = p.len();
    let start: usize = match find_last(&p, '/') {
        Some(i) => i + 1,
        None => 0,
    };
    String::from_str(name.substring_char(start, n))
}

/// Whether `v` is an empty list of changes: an empty array of
/// (type, file, destination) records.
pub open spec fn is_empty_change_list(v: BusValue) -> bool {
    match v {
        BusValue::Array(items, sig) => items@.len() == 0 && sig@ == "a(sss)"@,
        _ => false,
    }
}

/// The reply to `EnableUnitFiles` of a unit that was enabled already:
/// `true` (the unit has install information) and no change made.
pub open spec fn already_enabled(reply: Seq<BusValue>) -> bool {
    reply.len() == 2 && is_bool(reply[0], true) && is_empty_change_list(reply[1])
}

/// The reply to `DisableUnitFiles` of a unit that was disabled already: no
/// change made.
pub open spec fn already_disabled(reply: Seq<BusValue>) -> bool {
    reply.len() == 1 && is_empty_change_list(reply[0])
}

/// What an error reply says: its name and its message.
pub open spec fn error_detail(e: BusError) -> Seq<char> {
    e.name@ + ": "@ + e.message@
}

fn change_list_is_empty(v: &BusValue) -> (r: bool)
    ensures
        r == is_empty_change_list(*v),
{
    match v {
        BusValue::Array(items, sig) => items.len() == 0 && same_text(sig.as_str(), "a(sss)"),
        _ => false,
    }
}

fn detail_of(e: &BusError) -> (r: String)
    ensures
        r@ == error_detail(*e),
{
    let mut d = e.name.clone();
    d.append(": ");
    d.append(e.message.as_str());
    d
}

/// A diagnostic `lead + unit + tail` names the unit.
proof fn lemma_names_unit(lead: Seq<char>, unit: Seq<char>, tail: Seq<char>)
    ensures
        contains_seq(lead + unit + tail, unit),
{
    let d = lead + unit + tail;
    assert(d.subrange(lead.len() as int, (lead.len() + unit.len()) as int) =~= unit);
}

/// Reads the reply to enabling `unit`: `Ok(true)` when the unit was enabled
/// already, `Ok(false)` when it has now been enabled, and for an error reply
/// a diagnostic that names the unit and gives the error.
pub fn enable_unit_files(unit: &str, reply: &Result<Vec<BusValue>, BusError>) -> (r: Result<bool, String>)
    ensures
        match reply {
            Ok(items) => r == Ok::<bool, String>(already_enabled(items@)),
            Err(e) => r matches Err(d) && d@ == "Error enabling "@ + unit@ + ":\n"@ + error_detail(*e) && contains_seq(d@, unit@),
        },
{
    match reply {
        Ok(items) => {
            let already = items.len() == 2 && match &items[0] {
                BusValue::Bool(b) => *b,
                _ => false,
            } && change_list_is_empty(&items[1]);
            Ok(already)
        },
        Err(e) => {
            let mut d = String::from_str("Error enabling ");
            d.append(unit);
            d.append(":\n");
            d.append(detail_of(e).as_str());
            proof {
                lemma_names_unit("Error enabling "@, unit@, ":\n"@ + error_detail(*e));
                assert(d@ =~= "Error enabling "@ + unit@ + (":\n"@ + error_detail(*e)));
            }
            Err(d)
        },
    }
}

/// Reads the reply to disabling `unit`: `Ok(true)` when the unit was
/// disabled already, `Ok(false)` when it has now been disabled, and for an
/// error reply a diagnostic that names the unit and gives the error.
pub fn disable_unit_files(unit: &str, reply: &Result<Vec<BusValue>, BusError>) -> (r: Result<bool, String>)
    ensures
        match reply {
            Ok(items) => r == Ok::<bool, String>(already_disabled(items@)),
            Err(e) => r matches Err(d) && d@ == "Error disabling "@ + unit@ + ":\n"@ + error_detail(*e) && contains_seq(d@, unit@),
        },
{
    match reply {
        Ok(items) => Ok(items.len() == 1 && change_list_is_empty(&items[0])),
        Err(e) => {
            let mut d = String::from_str("Error disabling ");
            d.append(unit);
            d.append(":\n");
            d.append(detail_of(e).as_str());
            proof {
                lemma_names_unit("Error disabling "@, unit@, ":\n"@ + error_detail(*e));
                assert(d@ =~= "Error disabling "@ + unit@ + (":\n"@ + error_detail(*e)));
            }
            Err(d)
        },
    }
}

/// Reads the reply to starting `unit`: any reply but an error is success.
pub fn start_unit(unit: &str, reply: &Result<Vec<BusValue>, BusError>) -> (r: Result<(), String>)
    ensures
        match reply {
            Ok(_) => r is Ok,
            Err(e) => r matches Err(d) && d@ == unit@ + " failed to start:\n"@ + error_detail(*e) && contains_seq(d@, unit@),
        },
{
    match reply {
        Ok(_) => Ok(()),
        Err(e) => {
            let mut d = String::from_str(unit);
            d.append(" failed to start:\n");
            d.append(detail_of(e).as_str());
            proof {
                lemma_names_unit(Seq::empty(), unit@, " failed to start:\n"@ + error_detail(*e));
                assert(d@ =~= Seq::<char>::empty() + unit@ + (" failed to start:\n"@ + error_detail(*e)));
            }
            Err(d)
        },
    }
}

/// Reads the reply to stopping `unit`: any reply but an error is success.
pub fn stop_unit(unit: &str, reply: &Result<Vec<BusValue>, BusError>) -> (r: Result<(), String>)
    ensures
        match reply {
            Ok(_) => r is Ok,
            Err(e) => r matches Err(d) && d@ == unit@ + " failed to stop:\n"@ + error_detail(*e) && contains_seq(d@, unit@),
        },
{
    match reply {
        Ok(_) => Ok(()),
        Err(e) => {
            let mut d = String::from_str(unit);
            d.append(" failed to stop:\n");
            d.append(detail_of(e).as_str());
            proof {
                lemma_names_unit(Seq::empty(), unit@, " failed to stop:\n"@ + error_detail(*e));
                assert(d@ =~= Seq::<char>::empty() + unit@ + (" failed to stop:\n"@ + error_detail(*e)));
            }
            Err(d)
        },
    }
}

/// Whether a reply to `GetUnitFileState` reports the state `enabled`, in
/// any case. A reply whose first value is not a string reports no state.
pub open spec fn reports_enabled(reply: Seq<BusValue>) -> bool {
    reply.len() >= 1 && (reply[0] matches BusValue::Str(s) && equals_ignoring_case(s@, "enabled"@))
}

/// Reads the reply to `GetUnitFileState`: whether the unit's file state is
/// exactly `enabled`, compared without regard to case.
pub fn get_unit_file_state(reply: &Vec<BusValue>) -> (r: bool)
    ensures
        r == reports_enabled(reply@),
{
    if reply.len() == 0 {
        return false;
    }
    match &reply[0] {
        BusValue::Str(s) => text_equals_ignoring_case(s.as_str(), "enabled"),
        _ => false,
    }
}

} // verus!
