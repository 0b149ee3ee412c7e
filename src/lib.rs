//! A client for the systemd service manager's unit registry: decoding the
//! manager's list of unit files, classifying and filtering units, and
//! interpreting the replies to enable, disable, start and stop requests.
pub mod analyze;
pub mod bus;
pub mod control;
pub mod filter;
pub mod registry;
pub mod text;
pub mod unit;

pub use analyze::{parse_analyze, parse_blame, parse_time, Analyze};
pub use bus::{BusError, BusType, BusValue, MethodCall};
pub use control::{
    disable_unit_files, enable_unit_files, get_unit_file_state, start_unit, stop_unit, unit_name_of, Config,
    DbusHandle, REPLY_TIMEOUT_MS,
};
pub use filter::{collect_togglable_services, collect_togglable_sockets, collect_togglable_timers};
pub use registry::{list_unit_files, parse_units_from_message};
pub use unit::{DecodeError, SystemdUnit, UnitState, UnitType, UnitView};
