//! The registry: the units listed by one call, decoded from the reply's
//! pathname/state fields and sorted by pathname.
use vstd::prelude::*;
use vstd::seq_lib::{to_multiset_build, to_multiset_insert};

use crate::text::{chars_of, same_text, lemma_name_lt_total, lemma_name_lt_transitive, name_less, name_lt};
use crate::bus::BusValue;
use crate::unit::{DecodeError, SystemdUnit, UnitState, UnitType, UnitView};

verus! {

/// The views of a sequence of unit records.
pub open spec fn units_view(units: Seq<SystemdUnit>) -> Seq<UnitView> {
    units.map_values(|u: SystemdUnit| u@)
}

/// The views of a sequence of strings.
pub open spec fn strings_view(fields: Seq<String>) -> Seq<Seq<char>> {
    fields.map_values(|f: String| f@)
}

/// Whether the units are in ascending order of pathname.
pub open spec fn sorted_by_name(s: Seq<UnitView>) -> bool {
    forall|i: int, j: int| 0 <= i < j < s.len() ==> !name_lt(#[trigger] s[j].name, #[trigger] s[i].name)
}

/// Where a unit named `name` goes among `s`: after every unit whose name is
/// not greater than `name`.
pub open spec fn insert_pos(s: Seq<UnitView>, name: Seq<char>) -> int
    decreases s.len(),
{
    if s.len() == 0 {
        0
    } else if name_lt(name, s[0].name) {
        0
    } else {
        1 + insert_pos(s.drop_first(), name)
    }
}

/// `s` with `u` inserted after the units whose names are not greater.
pub open spec fn insert_by_name(s: Seq<UnitView>, u: UnitView) -> Seq<UnitView> {
    s.insert(insert_pos(s, u.name), u)
}

/// The stable sort of `s` by pathname: units with equal names keep their
/// relative order.
pub open spec fn sort_by_name(s: Seq<UnitView>) -> Seq<UnitView>
    decreases s.len(),
{
    if s.len() == 0 {
        s
    } else {
        insert_by_name(sort_by_name(s.drop_last()), s.last())
    }
}

/// The unit that one pathname/state pair describes.
pub open spec fn decode_pair(path: Seq<char>, state: Seq<char>) -> Result<UnitView, DecodeError> {
    match UnitType::of_path(path) {
        None => Err(DecodeError::UnknownUnitType),
        Some(t) => match UnitState::of_text(state) {
            None => Err(DecodeError::UnknownUnitState),
            Some(s) => Ok(UnitView { name: path, state: s, utype: t }),
        },
    }
}

/// The units of the first `n` pairs of `fields`, in order, or the error of
/// the first pair that cannot be decoded.
pub open spec fn decode_prefix(fields: Seq<Seq<char>>, n: nat) -> Result<Seq<UnitView>, DecodeError>
    decreases n,
{
    if n == 0 {
        Ok(Seq::empty())
    } else {
        match decode_prefix(fields, (n - 1) as nat) {
            Err(e) => Err(e),
            Ok(us) => match decode_pair(fields[2 * n - 2], fields[2 * n - 1]) {
                Err(e) => Err(e),
                Ok(u) => Ok(us.push(u)),
            },
        }
    }
}

/// The registry that alternating pathname/state fields describe. A field
/// left without its partner, or any pair that cannot be decoded, fails the
/// whole list: no partial registry is produced.
pub open spec fn decode_fields(fields: Seq<Seq<char>>) -> Result<Seq<UnitView>, DecodeError> {
    if fields.len() % 2 == 1 {
        Err(DecodeError::OddFieldCount)
    } else {
        match decode_prefix(fields, (fields.len() / 2) as nat) {
            Err(e) => Err(e),
            Ok(us) => Ok(sort_by_name(us)),
        }
    }
}

proof fn lemma_insert_pos_props(s: Seq<UnitView>, name: Seq<char>)
    ensures
        0 <= insert_pos(s, name) <= s.len(),
        forall|k: int| 0 <= k < insert_pos(s, name) ==> !name_lt(name, #[trigger] s[k].name),
        insert_pos(s, name) < s.len() ==> name_lt(name, s[insert_pos(s, name)].name),
    decreases s.len(),
{
    if s.len() > 0 && !name_lt(name, s[0].name) {
        lemma_insert_pos_props(s.drop_first(), name);
        assert forall|k: int| 0 <= k < insert_pos(s, name) implies !name_lt(name, #[trigger] s[k].name) by {
            if k > 0 {
                assert(s[k] == s.drop_first()[k - 1]);
            }
        }
    }
}

proof fn lemma_insert_pos_at(s: Seq<UnitView>, name: Seq<char>, j: int)
    requires
        0 <= j <= s.len(),
        forall|k: int| 0 <= k < j ==> !name_lt(name, #[trigger] s[k].name),
        j < s.len() ==> name_lt(name, s[j].name),
    ensures
        insert_pos(s, name) == j,
    decreases s.len(),
{
    if j > 0 {
        assert(!name_lt(name, s[0].name));
        assert forall|k: int| 0 <= k < j - 1 implies !name_lt(name, #[trigger] s.drop_first()[k].name) by {
            assert(s.drop_first()[k] == s[k + 1]);
        }
        lemma_insert_pos_at(s.drop_first(), name, j - 1);
    }
}

proof fn lemma_insert_sorted(s: Seq<UnitView>, u: UnitView)
    requires
        sorted_by_name(s),
    ensures
        sorted_by_name(insert_by_name(s, u)),
{
    let p = insert_pos(s, u.name);
    lemma_insert_pos_props(s, u.name);
    let t = insert_by_name(s, u);
    s.insert_ensures(p, u);
    assert forall|k: int| p <= k < s.len() implies name_lt(u.name, #[trigger] s[k].name) by {
        if k > p {
            lemma_name_lt_total(s[p].name, s[k].name);
            if s[p].name != s[k].name {
                lemma_name_lt_transitive(u.name, s[p].name, s[k].name);
            }
        }
    }
    assert forall|i: int, j: int| 0 <= i < j < t.len() implies !name_lt(#[trigger] t[j].name, #[trigger] t[i].name) by {
        if j < p {
            assert(t[i] == s[i] && t[j] == s[j]);
        } else if j == p {
            assert(t[i] == s[i]);
        } else if i == p {
            assert(t[j] == s[j - 1]);
            lemma_name_lt_total(u.name, s[j - 1].name);
        } else if i < p {
            assert(t[i] == s[i] && t[j] == s[j - 1]);
        } else {
            assert(t[i] == s[i - 1] && t[j] == s[j - 1]);
        }
    }
}

/// The stable sort by pathname orders units ascending by pathname.
pub proof fn lemma_sort_sorted(s: Seq<UnitView>)
    ensures
        sorted_by_name(sort_by_name(s)),
    decreases s.len(),
{
    if s.len() > 0 {
        lemma_sort_sorted(s.drop_last());
        lemma_insert_sorted(sort_by_name(s.drop_last()), s.last());
    }
}

/// The stable sort by pathname neither drops nor adds a unit.
pub proof fn lemma_sort_permutes(s: Seq<UnitView>)
    ensures
        sort_by_name(s).to_multiset() == s.to_multiset(),
    decreases s.len(),
{
    if s.len() > 0 {
        let rest = sort_by_name(s.drop_last());
        lemma_sort_permutes(s.drop_last());
        lemma_insert_pos_props(rest, s.last().name);
        assert(rest.len() == s.drop_last().len()) by {
            lemma_sort_len(s.drop_last());
        }
        to_multiset_insert(rest, insert_pos(rest, s.last().name), s.last());
        to_multiset_build(s.drop_last(), s.last());
        assert(s.drop_last().push(s.last()) =~= s);
    }
}

proof fn lemma_sort_len(s: Seq<UnitView>)
    ensures
        sort_by_name(s).len() == s.len(),
    decreases s.len(),
{
    if s.len() > 0 {
        lemma_sort_len(s.drop_last());
        lemma_insert_pos_props(sort_by_name(s.drop_last()), s.last().name);
    }
}

/// Sorts units by pathname, keeping the order of units with equal names.
fn sort_units(units: &Vec<SystemdUnit>) -> (r: Vec<SystemdUnit>)
    ensures
        units_view(r@) == sort_by_name(units_view(units@)),
{
    let mut keys: Vec<Vec<char>> = Vec::new();
    let mut out: Vec<SystemdUnit> = Vec::new();
    let mut i: usize = 0;
    while i < units.len()
        invariant
            i <= units.len(),
            keys.len() == out.len(),
            forall|k: int| 0 <= k < keys.len() ==> (#[trigger] keys@[k])@ == out@[k].name@,
            units_view(out@) == sort_by_name(units_view(units@).take(i as int)),
        decreases units.len() - i,
    {
        let u = units[i].copied();
        let key = chars_of(u.name.as_str());
        let mut j: usize = 0;
        while j < out.len() && !name_less(&key, &keys[j])
            invariant
                j <= out.len(),
                keys.len() == out.len(),
                forall|k: int| 0 <= k < keys.len() ==> (#[trigger] keys@[k])@ == out@[k].name@,
                forall|k: int| 0 <= k < j ==> !name_lt(key@, #[trigger] units_view(out@)[k].name),
            decreases out.len() - j,
        {
            j = j + 1;
        }
        let ghost prev = units_view(out@);
        let ghost old_keys = keys@;
        let ghost old_out = out@;
        proof {
            lemma_insert_pos_at(prev, key@, j as int);
        }
        out.insert(j, u);
        keys.insert(j, key);
        proof {
            let taken = units_view(units@).take(i as int + 1);
            assert(taken.drop_last() =~= units_view(units@).take(i as int));
            assert(units_view(out@) =~= prev.insert(j as int, taken.last()));
            assert forall|k: int| 0 <= k < keys.len() implies (#[trigger] keys@[k])@ == out@[k].name@ by {
                if k < j {
                    assert(keys@[k] == old_keys[k] && out@[k] == old_out[k]);
                } else if k > j {
                    assert(keys@[k] == old_keys[k - 1] && out@[k] == old_out[k - 1]);
                }
            }
        }
        i = i + 1;
    }
    assert(units_view(units@).take(units.len() as int) =~= units_view(units@));
    out
}

/// A decoding outcome as mathematical values.
pub open spec fn result_view(r: Result<Vec<SystemdUnit>, DecodeError>) -> Result<Seq<UnitView>, DecodeError> {
    match r {
        Ok(us) => Ok(units_view(us@)),
        Err(e) => Err(e),
    }
}

/// The strings of a record whose fields are all strings.
pub open spec fn string_fields(fs: Seq<BusValue>) -> Option<Seq<Seq<char>>>
    decreases fs.len(),
{
    if fs.len() == 0 {
        Some(Seq::empty())
    } else {
        match (string_fields(fs.drop_last()), fs.last()) {
            (Some(a), BusValue::Str(s)) => Some(a.push(s@)),
            _ => None,
        }
    }
}

/// The fields of a list of records of strings, in order, record after record.
pub open spec fn record_fields(items: Seq<BusValue>) -> Option<Seq<Seq<char>>>
    decreases items.len(),
{
    if items.len() == 0 {
        Some(Seq::empty())
    } else {
        match (record_fields(items.drop_last()), items.last()) {
            (Some(a), BusValue::Struct(fs)) => match string_fields(fs@) {
                Some(b) => Some(a + b),
                None => None,
            },
            _ => None,
        }
    }
}

/// The fields of a reply to `ListUnitFiles`: its one value is an array of
/// records of strings (pathname and state).
pub open spec fn reply_fields(reply: Seq<BusValue>) -> Option<Seq<Seq<char>>> {
    if reply.len() == 1 {
        match reply[0] {
            BusValue::Array(items, _) => record_fields(items@),
            _ => None,
        }
    } else {
        None
    }
}

proof fn lemma_decode_prefix_err(fields: Seq<Seq<char>>, m: nat, n: nat, e: DecodeError)
    requires
        m <= n,
        decode_prefix(fields, m) == Err::<Seq<UnitView>, DecodeError>(e),
    ensures
        decode_prefix(fields, n) == Err::<Seq<UnitView>, DecodeError>(e),
    decreases n,
{
    if n > m {
        lemma_decode_prefix_err(fields, m, (n - 1) as nat, e);
    }
}

/// Decodes alternating pathname and state fields into the registry they
/// describe, sorted by pathname. Decoding is all or nothing.
pub fn parse_units_from_message(fields: &Vec<String>) -> (r: Result<Vec<SystemdUnit>, DecodeError>)
    ensures
        result_view(r) == decode_fields(strings_view(fields@)),
        fields.len() % 2 == 1 ==> (r matches Err(e) && e == DecodeError::OddFieldCount),
        r matches Ok(us) ==> sorted_by_name(units_view(us@)),
{
    let ghost fv = strings_view(fields@);
    if fields.len() % 2 == 1 {
        return Err(DecodeError::OddFieldCount);
    }
    let n: usize = fields.len() / 2;
    let mut units: Vec<SystemdUnit> = Vec::new();
    let mut k: usize = 0;
    assert(units_view(units@) =~= Seq::<UnitView>::empty());
    while k < n
        invariant
            n == fields.len() / 2,
            fields.len() % 2 == 0,
            fv == strings_view(fields@),
            k <= n,
            decode_prefix(fv, k as nat) == Ok::<Seq<UnitView>, DecodeError>(units_view(units@)),
        decreases n - k,
    {
        let path = &fields[2 * k];
        let state = &fields[2 * k + 1];
        assert(fv[2 * k as int] == path@ && fv[2 * k + 1] == state@);
        let utype = match UnitType::new(path.as_str()) {
            Ok(t) => t,
            Err(e) => {
                proof {
                    lemma_decode_prefix_err(fv, (k + 1) as nat, n as nat, e);
                }
                return Err(e);
            },
        };
        let ustate = match UnitState::new(state.as_str()) {
            Ok(s) => s,
            Err(e) => {
                proof {
                    lemma_decode_prefix_err(fv, (k + 1) as nat, n as nat, e);
                }
                return Err(e);
            },
        };
        let ghost prev = units_view(units@);
        units.push(SystemdUnit { name: path.clone(), state: ustate, utype });
        assert(decode_pair(fv[2 * k as int], fv[2 * k + 1]) == Ok::<UnitView, DecodeError>(units@.last()@));
        assert(units_view(units@) =~= prev.push(units@.last()@));
        k = k + 1;
    }
    let sorted = sort_units(&units);
    proof {
        lemma_sort_sorted(units_view(units@));
    }
    Ok(sorted)
}

/// Decodes the reply to a `ListUnitFiles` call into the registry it
/// describes, sorted by pathname. A reply of another shape is refused.
pub fn list_unit_files(reply: &Vec<BusValue>) -> (r: Result<Vec<SystemdUnit>, DecodeError>)
    ensures
        reply_fields(reply@) is None ==> r == Err::<Vec<SystemdUnit>, DecodeError>(DecodeError::MalformedReply),
        reply_fields(reply@) matches Some(f) ==> result_view(r) == decode_fields(f),
        r matches Ok(us) ==> sorted_by_name(units_view(us@)),
{
    if reply.len() != 1 {
        return Err(DecodeError::MalformedReply);
    }
    let items = match &reply[0] {
        BusValue::Array(items, _) => items,
        _ => {
            return Err(DecodeError::MalformedReply);
        },
    };
    assert(reply_fields(reply@) == record_fields(items@));
    let mut fields: Vec<String> = Vec::new();
    let mut i: usize = 0;
    while i < items.len()
        invariant
            reply_fields(reply@) == record_fields(items@),
            i <= items.len(),
            record_fields(items@.take(i as int)) == Some(strings_view(fields@)),
        decreases items.len() - i,
    {
        assert(items@.take(i as int + 1).drop_last() =~= items@.take(i as int));
        assert(items@.take(i as int + 1).last() == items@[i as int]);
        let fs = match &items[i] {
            BusValue::Struct(fs) => fs,
            _ => {
                proof {
                    lemma_record_fields_none(items@, i as int + 1);
                }
                return Err(DecodeError::MalformedReply);
            },
        };
        let ghost before = strings_view(fields@);
        assert(items@[i as int] == BusValue::Struct(*fs));
        let mut j: usize = 0;
        while j < fs.len()
            invariant
                i < items.len(),
                items@[i as int] == BusValue::Struct(*fs),
                record_fields(items@.take(i as int)) == Some(before),
                items@.take(i as int + 1).drop_last() == items@.take(i as int),
                items@.take(i as int + 1).last() == items@[i as int],
                reply_fields(reply@) == record_fields(items@),
                j <= fs.len(),
                string_fields(fs@.take(j as int)) matches Some(b) && strings_view(fields@) == before + b,
            decreases fs.len() - j,
        {
            assert(fs@.take(j as int + 1).drop_last() =~= fs@.take(j as int));
            assert(fs@.take(j as int + 1).last() == fs@[j as int]);
            let ghost b = string_fields(fs@.take(j as int))->Some_0;
            match &fs[j] {
                BusValue::Str(s) => {
                    let ghost prev = strings_view(fields@);
                    fields.push(s.clone());
                    assert(strings_view(fields@) =~= prev.push(s@));
                    assert(before + b.push(s@) =~= (before + b).push(s@));
                },
                _ => {
                    proof {
                        lemma_string_fields_none(fs@, j as int + 1);
                        assert(record_fields(items@.take(i as int + 1)) is None);
                        lemma_record_fields_none(items@, i as int + 1);
                    }
                    return Err(DecodeError::MalformedReply);
                },
            }
            j = j + 1;
        }
        assert(fs@.take(fs.len() as int) =~= fs@);
        i = i + 1;
    }
    assert(items@.take(items.len() as int) =~= items@);
    parse_units_from_message(&fields)
}

proof fn lemma_string_fields_none(fs: Seq<BusValue>, j: int)
    requires
        0 < j <= fs.len(),
        string_fields(fs.take(j)) is None,
    ensures
        string_fields(fs) is None,
    decreases fs.len() - j,
{
    if j < fs.len() {
        assert(fs.take(j + 1).drop_last() =~= fs.take(j));
        lemma_string_fields_none(fs, j + 1);
    } else {
        assert(fs.take(j) =~= fs);
    }
}

proof fn lemma_record_fields_none(items: Seq<BusValue>, i: int)
    requires
        0 < i <= items.len(),
        record_fields(items.take(i)) is None,
    ensures
        record_fields(items) is None,
    decreases items.len() - i,
{
    if i < items.len() {
        assert(items.take(i + 1).drop_last() =~= items.take(i));
        lemma_record_fields_none(items, i + 1);
    } else {
        assert(items.take(i) =~= items);
    }
}

/// The first unit of `units` with the pathname `path`, if any.
pub open spec fn first_named(units: Seq<UnitView>, path: Seq<char>) -> Option<UnitView>
    decreases units.len(),
{
    if units.len() == 0 {
        None
    } else if units[0].name == path {
        Some(units[0])
    } else {
        first_named(units.drop_first(), path)
    }
}

/// Whether a registry lists the unit file `path` as enabled: the first
/// unit with that pathname is enabled. A path it does not list is not.
pub fn unit_file_enabled(units: &[SystemdUnit], path: &str) -> (r: bool)
    ensures
        r == (first_named(units_view(units@), path@) matches Some(u) && u.state == UnitState::Enabled),
{
    let ghost all = units_view(units@);
    let mut i: usize = 0;
    assert(all.subrange(0, all.len() as int) =~= all);
    while i < units.len()
        invariant
            all == units_view(units@),
            i <= units.len(),
            first_named(all, path@) == first_named(all.subrange(i as int, all.len() as int), path@),
        decreases units.len() - i,
    {
        let ghost rest = all.subrange(i as int, all.len() as int);
        if same_text(units[i].name.as_str(), path) {
            assert(rest[0] == units@[i as int]@);
            return units[i].state == UnitState::Enabled;
        }
        assert(rest.drop_first() =~= all.subrange(i + 1, all.len() as int));
        i = i + 1;
    }
    false
}

} // verus!
