//! The typed model of a unit: its type, its enablement state, and the record
//! that pairs them with the unit's pathname.
use vstd::prelude::*;

use crate::text::{chars_of, copy_range, find_last, last_index_of, same_chars};

verus! {

/// Why a reply from the service manager could not be decoded.
#[derive(Clone, Copy, Debug, PartialEq, Eq, Structural)]
pub enum DecodeError {
    /// The pathname has no extension, or one that names no unit type.
    UnknownUnitType,
    /// The state string is empty or starts with a character that names no state.
    UnknownUnitState,
    /// The pathname/state fields do not come in pairs.
    OddFieldCount,
    /// The reply does not have the shape of a list of (string, string) records.
    MalformedReply,
}

/// The kind of a unit, given by the extension of its file.
#[derive(Clone, Copy, Debug, PartialEq, Eq, Structural)]
pub enum UnitType {
    Automount,
    Busname,
    Mount,
    Path,
    Scope,
    Service,
    Slice,
    Socket,
    Target,
    Timer,
    Swap,
}

impl UnitType {
    /// The file extension that marks a unit of this type.
    pub open spec fn extension(self) -> Seq<char> {
        match self {
            UnitType::Automount => "automount"@,
            UnitType::Busname => "busname"@,
            UnitType::Mount => "mount"@,
            UnitType::Path => "path"@,
            UnitType::Scope => "scope"@,
            UnitType::Service => "service"@,
            UnitType::Slice => "slice"@,
            UnitType::Socket => "socket"@,
            UnitType::Target => "target"@,
            UnitType::Timer => "timer"@,
            UnitType::Swap => "swap"@,
        }
    }

    /// The unit type whose extension is exactly `ext`, if any.
    pub open spec fn of_extension(ext: Seq<char>) -> Option<UnitType> {
        if exists|t: UnitType| t.extension() == ext {
            Some(choose|t: UnitType| t.extension() == ext)
        } else {
            None
        }
    }

    /// The unit type of a pathname: the type named by its file extension.
    pub open spec fn of_path(path: Seq<char>) -> Option<UnitType> {
        match extension_of(path) {
            Some(ext) => UnitType::of_extension(ext),
            None => None,
        }
    }

    /// Maps a file extension to its unit type. The match is exact and
    /// case-sensitive.
    pub fn from_extension(ext: &str) -> (r: Result<UnitType, DecodeError>)
        ensures
            match r {
                Ok(t) => ext@ == t.extension(),
                Err(e) => e == DecodeError::UnknownUnitType && forall|t: UnitType|
                    ext@ != #[trigger] t.extension(),
            },
    {
        let e = chars_of(ext);
        if same_chars(&e, "automount") {
            Ok(UnitType::Automount)
        } else if same_chars(&e, "busname") {
            Ok(UnitType::Busname)
        } else if same_chars(&e, "mount") {
            Ok(UnitType::Mount)
        } else if same_chars(&e, "path") {
            Ok(UnitType::Path)
        } else if same_chars(&e, "scope") {
            Ok(UnitType::Scope)
        } else if same_chars(&e, "service") {
            Ok(UnitType::Service)
        } else if same_chars(&e, "slice") {
            Ok(UnitType::Slice)
        } else if same_chars(&e, "socket") {
            Ok(UnitType::Socket)
        } else if same_chars(&e, "target") {
            Ok(UnitType::Target)
        } else if same_chars(&e, "timer") {
            Ok(UnitType::Timer)
        } else if same_chars(&e, "swap") {
            Ok(UnitType::Swap)
        } else {
            Err(DecodeError::UnknownUnitType)
        }
    }
}

impl UnitType {
    /// Determines the type of a unit from the extension of its pathname.
    pub fn new(pathname: &str) -> (r: Result<UnitType, DecodeError>)
        ensures
            match r {
                Ok(t) => UnitType::of_path(pathname@) == Some(t),
                Err(e) => e == DecodeError::UnknownUnitType && UnitType::of_path(pathname@) is None,
            },
    {
        let p = chars_of(pathname);
        let start: usize = match find_last(&p, '/') {
            Some(i) => i + 1,
            None => 0,
        };
        let name = copy_range(&p, start, p.len());
        assert(name@ == file_name_of(pathname@));
        match find_last(&name, '.') {
            Some(dot) if dot > 0 => {
                let ext = pathname.substring_char(start + dot + 1, p.len());
                assert(ext@ =~= name@.subrange(dot + 1, name@.len() as int));
                let r = UnitType::from_extension(ext);
                proof {
                    if r is Err {
                        assert(!exists|t: UnitType| t.extension() == ext@);
                    } else {
                        let t = r->Ok_0;
                        assert(t.extension() == ext@);
                        let c = choose|t: UnitType| t.extension() == ext@;
                        lemma_extension_injective(t, c);
                    }
                }
                r
            },
            _ => Err(DecodeError::UnknownUnitType),
        }
    }
}

/// Distinct unit types have distinct extensions.
pub proof fn lemma_extension_injective(a: UnitType, b: UnitType)
    requires
        a.extension() == b.extension(),
    ensures
        a == b,
{
    reveal_strlit("automount");
    reveal_strlit("busname");
    reveal_strlit("mount");
    reveal_strlit("path");
    reveal_strlit("scope");
    reveal_strlit("service");
    reveal_strlit("slice");
    reveal_strlit("socket");
    reveal_strlit("target");
    reveal_strlit("timer");
    reveal_strlit("swap");
    let (ea, eb) = (a.extension(), b.extension());
    assert(ea.len() == eb.len());
    assert(ea[0] == eb[0]);
    assert(ea[1] == eb[1]);
}

/// The enablement state of a unit file.
#[derive(Clone, Copy, Debug, PartialEq, Eq, Structural)]
pub enum UnitState {
    Bad,
    Disabled,
    Enabled,
    Indirect,
    Linked,
    Masked,
    Static,
    Generated,
    Alias,
    Transient,
}

impl UnitState {
    /// The first character of the state strings that denote this state.
    pub open spec fn initial(self) -> char {
        match self {
            UnitState::Bad => 'b',
            UnitState::Disabled => 'd',
            UnitState::Enabled => 'e',
            UnitState::Indirect => 'i',
            UnitState::Linked => 'l',
            UnitState::Masked => 'm',
            UnitState::Static => 's',
            UnitState::Generated => 'g',
            UnitState::Alias => 'a',
            UnitState::Transient => 't',
        }
    }

    /// The state that a state string denotes: the one selected by its first
    /// character.
    pub open spec fn of_text(x: Seq<char>) -> Option<UnitState> {
        if x.len() > 0 && exists|s: UnitState| s.initial() == x[0] {
            Some(choose|s: UnitState| s.initial() == x[0])
        } else {
            None
        }
    }

    /// Reads a state string as the service manager reports it (`enabled`,
    /// `static`, `masked-runtime`, ...): its first character selects the state.
    pub fn new(x: &str) -> (r: Result<UnitState, DecodeError>)
        ensures
            match r {
                Ok(s) => x@.len() > 0 && x@[0] == s.initial(),
                Err(e) => e == DecodeError::UnknownUnitState && (x@.len() == 0 || forall|s: UnitState|
                    #[trigger] s.initial() != x@[0]),
            },
            r matches Ok(s) ==> UnitState::of_text(x@) == Some(s),
            r is Err ==> UnitState::of_text(x@) is None,
    {
        if x.unicode_len() == 0 {
            return Err(DecodeError::UnknownUnitState);
        }
        let c = x.get_char(0);
        let r = match c {
            's' => Ok(UnitState::Static),
            'd' => Ok(UnitState::Disabled),
            'e' => Ok(UnitState::Enabled),
            'i' => Ok(UnitState::Indirect),
            'l' => Ok(UnitState::Linked),
            'm' => Ok(UnitState::Masked),
            'b' => Ok(UnitState::Bad),
            'g' => Ok(UnitState::Generated),
            'a' => Ok(UnitState::Alias),
            't' => Ok(UnitState::Transient),
            _ => Err(DecodeError::UnknownUnitState),
        };
        proof {
            if r is Ok {
                let s = r->Ok_0;
                let t = choose|t: UnitState| t.initial() == x@[0];
                assert(s.initial() == x@[0]);
                assert(t == s) by {
                    assert(t.initial() == s.initial());
                }
            }
        }
        r
    }
}

/// What a unit record says, as mathematical values.
pub struct UnitView {
    pub name: Seq<char>,
    pub state: UnitState,
    pub utype: UnitType,
}

/// One unit file known to the service manager. Records are snapshots: a
/// change of state made later is seen only by listing the units again.
#[derive(Clone, Debug)]
pub struct SystemdUnit {
    /// The full pathname of the unit file; it identifies the unit.
    pub name: String,
    pub state: UnitState,
    pub utype: UnitType,
}

impl View for SystemdUnit {
    type V = UnitView;

    open spec fn view(&self) -> UnitView {
        UnitView { name: self.name@, state: self.state, utype: self.utype }
    }
}

/// Two records denote the same unit when their pathnames are equal.
impl PartialEq for SystemdUnit {
    fn eq(&self, other: &SystemdUnit) -> (r: bool) {
        self.name == other.name
    }
}

impl vstd::std_specs::cmp::PartialEqSpecImpl for SystemdUnit {
    open spec fn obeys_eq_spec() -> bool {
        true
    }

    open spec fn eq_spec(&self, other: &SystemdUnit) -> bool {
        self.name@ == other.name@
    }
}

impl SystemdUnit {
    /// A copy of this record.
    pub fn copied(&self) -> (r: SystemdUnit)
        ensures
            r@ == self@,
    {
        SystemdUnit { name: self.name.clone(), state: self.state, utype: self.utype }
    }
}

/// The file name of a pathname: what follows its last `/`.
pub open spec fn file_name_of(path: Seq<char>) -> Seq<char> {
    path.subrange(last_index_of(path, '/') + 1, path.len() as int)
}

/// The extension of a pathname: what follows the last `.` of its file name.
/// A file name without a `.`, or whose only `.` is its first character, has
/// no extension.
pub open spec fn extension_of(path: Seq<char>) -> Option<Seq<char>> {
    let name = file_name_of(path);
    let dot = last_index_of(name, '.');
    if dot <= 0 {
        None
    } else {
        Some(name.subrange(dot + 1, name.len() as int))
    }
}

} // verus!
