//! The units of a registry that can be switched between enabled and
//! disabled, by kind. Each filter keeps the registry's order.
use vstd::prelude::*;

use crate::registry::units_view;
use crate::text::{chars_of, contains_seq, contains_chars};
use crate::unit::{SystemdUnit, UnitState, UnitType, UnitView};

verus! {

/// A unit is togglable when its state is exactly enabled or disabled.
pub open spec fn is_togglable(u: UnitView) -> bool {
    u.state == UnitState::Enabled || u.state == UnitState::Disabled
}

/// Whether a pathname lies under `/etc/`, where the administrator's own
/// unit files live.
pub open spec fn under_etc(name: Seq<char>) -> bool {
    contains_seq(name, "/etc/"@)
}

/// A togglable unit of type `utype`; with `skip_etc`, one outside `/etc/` too.
pub open spec fn is_togglable_of(u: UnitView, utype: UnitType, skip_etc: bool) -> bool {
    u.utype == utype && is_togglable(u) && !(skip_etc && under_etc(u.name))
}

/// The togglable services of a registry: those outside `/etc/`.
pub open spec fn togglable_services(units: Seq<UnitView>) -> Seq<UnitView> {
    units.filter(|u: UnitView| is_togglable_of(u, UnitType::Service, true))
}

/// The togglable sockets of a registry.
pub open spec fn togglable_sockets(units: Seq<UnitView>) -> Seq<UnitView> {
    units.filter(|u: UnitView| is_togglable_of(u, UnitType::Socket, false))
}

/// The togglable timers of a registry.
pub open spec fn togglable_timers(units: Seq<UnitView>) -> Seq<UnitView> {
    units.filter(|u: UnitView| is_togglable_of(u, UnitType::Timer, false))
}

/// The units of `units` that are togglable and of type `utype`, in order;
/// with `skip_etc`, leaving out those under `/etc/`.
fn collect_togglable(units: &[SystemdUnit], utype: UnitType, skip_etc: bool) -> (r: Vec<SystemdUnit>)
    ensures
        units_view(r@) == units_view(units@).filter(|u: UnitView| is_togglable_of(u, utype, skip_etc)),
{
    let ghost pred = |u: UnitView| is_togglable_of(u, utype, skip_etc);
    let etc = chars_of("/etc/");
    let mut out: Vec<SystemdUnit> = Vec::new();
    let mut i: usize = 0;
    proof {
        reveal(Seq::filter);
        assert(units_view(units@).take(0) =~= Seq::<UnitView>::empty());
        assert(units_view(out@) =~= Seq::<UnitView>::empty());
    }
    while i < units.len()
        invariant
            i <= units.len(),
            etc@ == "/etc/"@,
            pred == (|u: UnitView| is_togglable_of(u, utype, skip_etc)),
            units_view(out@) == units_view(units@).take(i as int).filter(pred),
        decreases units.len() - i,
    {
        let u = &units[i];
        let keep = u.utype == utype && (u.state == UnitState::Enabled || u.state == UnitState::Disabled)
            && !(skip_etc && contains_chars(&chars_of(u.name.as_str()), &etc));
        let ghost prev = units_view(out@);
        if keep {
            out.push(u.copied());
            assert(units_view(out@) =~= prev.push(u@));
        }
        proof {
            reveal(Seq::filter);
            let taken = units_view(units@).take(i as int + 1);
            assert(taken.drop_last() =~= units_view(units@).take(i as int));
            assert(taken.last() == u@);
            assert(keep == pred(u@));
        }
        i = i + 1;
    }
    assert(units_view(units@).take(units.len() as int) =~= units_view(units@));
    out
}

/// The services of a registry that can be enabled or disabled: state
/// enabled or disabled, and pathname outside `/etc/`.
pub fn collect_togglable_services(units: &[SystemdUnit]) -> (r: Vec<SystemdUnit>)
    ensures
        units_view(r@) == togglable_services(units_view(units@)),
{
    collect_togglable(units, UnitType::Service, true)
}

/// The sockets of a registry that can be enabled or disabled.
pub fn collect_togglable_sockets(units: &[SystemdUnit]) -> (r: Vec<SystemdUnit>)
    ensures
        units_view(r@) == togglable_sockets(units_view(units@)),
{
    collect_togglable(units, UnitType::Socket, false)
}

/// The timers of a registry that can be enabled or disabled.
pub fn collect_togglable_timers(units: &[SystemdUnit]) -> (r: Vec<SystemdUnit>)
    ensures
        units_view(r@) == togglable_timers(units_view(units@)),
{
    collect_togglable(units, UnitType::Timer, false)
}

/// No togglable service lies under `/etc/`.
pub proof fn lemma_services_outside_etc(units: Seq<UnitView>)
    ensures
        forall|i: int| 0 <= i < togglable_services(units).len()
            ==> !under_etc(#[trigger] togglable_services(units)[i].name),
{
    broadcast use vstd::seq_lib::group_filter_ensures;
}

/// The togglable services, sockets and timers of one registry are pairwise
/// disjoint: each holds units of its own type only.
pub proof fn lemma_togglable_disjoint(units: Seq<UnitView>)
    ensures
        forall|i: int| 0 <= i < togglable_services(units).len()
            ==> (#[trigger] togglable_services(units)[i]).utype == UnitType::Service,
        forall|i: int| 0 <= i < togglable_sockets(units).len()
            ==> (#[trigger] togglable_sockets(units)[i]).utype == UnitType::Socket,
        forall|i: int| 0 <= i < togglable_timers(units).len()
            ==> (#[trigger] togglable_timers(units)[i]).utype == UnitType::Timer,
        forall|a: UnitView, b: UnitView|
            togglable_services(units).contains(a) && togglable_sockets(units).contains(b) ==> a != b,
        forall|a: UnitView, b: UnitView|
            togglable_services(units).contains(a) && togglable_timers(units).contains(b) ==> a != b,
        forall|a: UnitView, b: UnitView|
            togglable_sockets(units).contains(a) && togglable_timers(units).contains(b) ==> a != b,
{
    broadcast use vstd::seq_lib::group_filter_ensures;

}

} // verus!
