//! Rules of the `.ptun` tuning file format that do not involve its
//! floating-point values: the format version, names, note-name keys,
//! curve length, and the creation timestamp.

use vstd::prelude::*;

use crate::calendar::{civil_date, civil_from_days};
use crate::cents::{
    is_whitespace, key_index_from_name, spec_key_index_from_name, trim, trim_bounds, trim_end,
    trim_start,
};
use crate::text::chars_of;
use crate::text::{decimal, decimal_chars, string_from_chars};

verus! {

/// Version of the on-disk format written by this build.
pub const CURRENT_FORMAT_VERSION: u32 = 1;

/// Why a tuning file was rejected.
#[derive(Debug, Clone, PartialEq, Eq)]
pub enum ValidationError {
    /// The file declares a format version other than [`CURRENT_FORMAT_VERSION`].
    UnsupportedVersion(u32),
    /// The tuning's name is empty or only whitespace.
    EmptyName,
    /// The A4 reference is not a finite frequency in `[380, 500]` Hz.
    A4ReferenceOutOfRange,
    /// The calibration is not a finite offset within `±100` cents.
    CalibrationOutOfRange,
    /// The stretch is not a finite amount in `[0, 10]`.
    StretchOutOfRange,
    /// The tuning curve does not have one entry per key; holds its length.
    WrongCurveLength(usize),
    /// The tuning curve holds a value that is not finite; holds its index.
    NonFiniteCurveValue(usize),
    /// A temperament offset is not finite or lies beyond `±100` cents.
    TemperamentOffsetsOutOfRange,
    /// An inharmonicity entry is keyed by something that is not a note name.
    UnknownNoteName(String),
    /// An inharmonicity coefficient is not finite or is negative; holds its note name.
    InvalidInharmonicity(String),
}

/// What validation reads of a tuning file. The checks on its floating-point
/// fields are given as their outcomes.
pub struct FileFacts {
    pub format_version: u32,
    pub name: String,
    /// `a4_reference_hz` is finite and within `[380, 500]`.
    pub a4_reference_in_range: bool,
    /// `calibration_cents` is finite and within `[-100, 100]`.
    pub calibration_in_range: bool,
    /// `stretch` is finite and within `[0, 10]`.
    pub stretch_in_range: bool,
    /// Number of entries of `tuning_curve_cents`.
    pub curve_len: usize,
    /// Index of the first entry of `tuning_curve_cents` that is not finite.
    pub first_non_finite_curve_value: Option<usize>,
    /// Every temperament offset is finite and within `±100` cents.
    pub temperament_offsets_in_range: bool,
    /// The inharmonicity entries in the order they are checked: note name,
    /// and whether the coefficient is finite and not negative.
    pub inharmonicity: Vec<(String, bool)>,
}

/// The first inharmonicity entry that fails, and how.
pub open spec fn inharmonicity_error(entries: Seq<(String, bool)>) -> Option<ValidationError>
    decreases entries.len(),
{
    if entries.len() == 0 {
        None
    } else if spec_key_index_from_name(entries[0].0@) is None {
        Some(ValidationError::UnknownNoteName(entries[0].0))
    } else if !entries[0].1 {
        Some(ValidationError::InvalidInharmonicity(entries[0].0))
    } else {
        inharmonicity_error(entries.drop_first())
    }
}

/// The outcome of validating a tuning file: the first failed check, in the
/// order version, name, A4 reference, calibration, stretch, curve length,
/// curve values, temperament offsets, inharmonicity entries.
pub open spec fn spec_validate(facts: FileFacts) -> Result<(), ValidationError> {
    if facts.format_version != CURRENT_FORMAT_VERSION {
        Err(ValidationError::UnsupportedVersion(facts.format_version))
    } else if trim(facts.name@).len() == 0 {
        Err(ValidationError::EmptyName)
    } else if !facts.a4_reference_in_range {
        Err(ValidationError::A4ReferenceOutOfRange)
    } else if !facts.calibration_in_range {
        Err(ValidationError::CalibrationOutOfRange)
    } else if !facts.stretch_in_range {
        Err(ValidationError::StretchOutOfRange)
    } else if facts.curve_len != 88 {
        Err(ValidationError::WrongCurveLength(facts.curve_len))
    } else if facts.first_non_finite_curve_value is Some {
        Err(ValidationError::NonFiniteCurveValue(facts.first_non_finite_curve_value->0))
    } else if !facts.temperament_offsets_in_range {
        Err(ValidationError::TemperamentOffsetsOutOfRange)
    } else {
        match inharmonicity_error(facts.inharmonicity@) {
            Some(e) => Err(e),
            None => Ok(()),
        }
    }
}

/// Does `name` hold a character other than whitespace?
pub open spec fn has_visible_char(name: Seq<char>) -> bool {
    exists|i: int| 0 <= i < name.len() && !is_whitespace(#[trigger] name[i])
}

/// Does every inharmonicity entry name a key and carry a usable coefficient?
pub open spec fn all_entries_valid(entries: Seq<(String, bool)>) -> bool {
    forall|i: int|
        0 <= i < entries.len() ==> spec_key_index_from_name((#[trigger] entries[i]).0@) is Some
            && entries[i].1
}

proof fn lemma_trim_start_first(s: Seq<char>)
    ensures
        trim_start(s).len() > 0 ==> !is_whitespace(trim_start(s)[0]),
        trim_start(s).len() == 0 <==> forall|i: int| 0 <= i < s.len() ==> is_whitespace(#[trigger] s[i]),
    decreases s.len(),
{
    if s.len() > 0 && is_whitespace(s[0]) {
        lemma_trim_start_first(s.drop_first());
        if trim_start(s).len() == 0 {
            assert forall|i: int| 0 <= i < s.len() implies is_whitespace(#[trigger] s[i]) by {
                if i > 0 {
                    assert(s[i] == s.drop_first()[i - 1]);
                }
            }
        } else {
            if forall|i: int| 0 <= i < s.len() ==> is_whitespace(#[trigger] s[i]) {
                assert forall|i: int| 0 <= i < s.drop_first().len() implies is_whitespace(
                    #[trigger] s.drop_first()[i],
                ) by {
                    assert(s.drop_first()[i] == s[i + 1]);
                }
            }
        }
    } else if s.len() > 0 {
        assert(!is_whitespace(s[0]));
    }
}

proof fn lemma_trim_end_empty(s: Seq<char>)
    ensures
        trim_end(s).len() == 0 <==> forall|i: int| 0 <= i < s.len() ==> is_whitespace(#[trigger] s[i]),
    decreases s.len(),
{
    if s.len() > 0 && is_whitespace(s.last()) {
        lemma_trim_end_empty(s.drop_last());
        if trim_end(s).len() == 0 {
            assert forall|i: int| 0 <= i < s.len() implies is_whitespace(#[trigger] s[i]) by {
                if i < s.len() - 1 {
                    assert(s[i] == s.drop_last()[i]);
                }
            }
        } else {
            if forall|i: int| 0 <= i < s.len() ==> is_whitespace(#[trigger] s[i]) {
                assert forall|i: int| 0 <= i < s.drop_last().len() implies is_whitespace(
                    #[trigger] s.drop_last()[i],
                ) by {
                    assert(s.drop_last()[i] == s[i]);
                }
            }
        }
    } else if s.len() > 0 {
        assert(!is_whitespace(s[s.len() - 1]));
    }
}

/// A name trims to nothing exactly when it holds only whitespace.
pub proof fn lemma_trim_empty_iff_blank(name: Seq<char>)
    ensures
        trim(name).len() == 0 <==> !has_visible_char(name),
{
    lemma_trim_start_first(name);
    let t = trim_start(name);
    lemma_trim_end_empty(t);
    if t.len() > 0 {
        assert(!is_whitespace(t[0]));
    }
}

proof fn lemma_inharmonicity_error_none(entries: Seq<(String, bool)>)
    ensures
        inharmonicity_error(entries) is None <==> all_entries_valid(entries),
        inharmonicity_error(entries) is Some ==> !all_entries_valid(entries),
    decreases entries.len(),
{
    if entries.len() > 0 {
        lemma_inharmonicity_error_none(entries.drop_first());
        if all_entries_valid(entries) {
            assert forall|i: int| 0 <= i < entries.drop_first().len() implies spec_key_index_from_name(
                (#[trigger] entries.drop_first()[i]).0@,
            ) is Some && entries.drop_first()[i].1 by {
                assert(entries.drop_first()[i] == entries[i + 1]);
            }
        }
        if all_entries_valid(entries.drop_first()) && spec_key_index_from_name(entries[0].0@) is Some
            && entries[0].1 {
            assert forall|i: int| 0 <= i < entries.len() implies spec_key_index_from_name(
                (#[trigger] entries[i]).0@,
            ) is Some && entries[i].1 by {
                if i > 0 {
                    assert(entries[i] == entries.drop_first()[i - 1]);
                }
            }
        }
        if !(spec_key_index_from_name(entries[0].0@) is Some && entries[0].1) {
            let e0 = entries[0];
            assert(!(spec_key_index_from_name(e0.0@) is Some && e0.1));
        }
    }
}

/// A tuning file passes validation exactly when every check holds: format
/// version 1, a name with a visible character, the A4 reference,
/// calibration and stretch in range, one curve entry per key (88), all
/// curve values finite, the temperament offsets in range, and every
/// inharmonicity entry keyed by a note name with a usable coefficient.
pub proof fn lemma_validate_ok_iff(facts: FileFacts)
    ensures
        (spec_validate(facts) == Ok::<(), ValidationError>(())) <==> {
            &&& facts.format_version == 1
            &&& has_visible_char(facts.name@)
            &&& facts.a4_reference_in_range
            &&& facts.calibration_in_range
            &&& facts.stretch_in_range
            &&& facts.curve_len == 88
            &&& facts.first_non_finite_curve_value is None
            &&& facts.temperament_offsets_in_range
            &&& all_entries_valid(facts.inharmonicity@)
        },
{
    lemma_trim_empty_iff_blank(facts.name@);
    lemma_inharmonicity_error_none(facts.inharmonicity@);
}

/// A curve that does not hold exactly one entry per key is rejected with
/// its length, once the version, name and range checks before it pass.
pub proof fn lemma_validate_curve_length(facts: FileFacts)
    requires
        facts.format_version == 1,
        has_visible_char(facts.name@),
        facts.a4_reference_in_range,
        facts.calibration_in_range,
        facts.stretch_in_range,
        facts.curve_len != 88,
    ensures
        spec_validate(facts) == Err::<(), ValidationError>(ValidationError::WrongCurveLength(facts.curve_len)),
{
    lemma_trim_empty_iff_blank(facts.name@);
}

/// Validate the contents of a tuning file.
#[verifier::loop_isolation(false)]
pub fn validate_facts(facts: &FileFacts) -> (r: Result<(), ValidationError>)
    ensures
        r == spec_validate(*facts),
        r is Ok <==> {
            &&& facts.format_version == 1
            &&& has_visible_char(facts.name@)
            &&& facts.a4_reference_in_range
            &&& facts.calibration_in_range
            &&& facts.stretch_in_range
            &&& facts.curve_len == 88
            &&& facts.first_non_finite_curve_value is None
            &&& facts.temperament_offsets_in_range
            &&& all_entries_valid(facts.inharmonicity@)
        },
        facts.format_version == 1 && has_visible_char(facts.name@) && facts.a4_reference_in_range
            && facts.calibration_in_range && facts.stretch_in_range && facts.curve_len != 88 ==> r
            == Err::<(), ValidationError>(ValidationError::WrongCurveLength(facts.curve_len)),
{
    proof {
        lemma_validate_ok_iff(*facts);
        if facts.format_version == 1 && has_visible_char(facts.name@) && facts.a4_reference_in_range
            && facts.calibration_in_range && facts.stretch_in_range && facts.curve_len != 88 {
            lemma_validate_curve_length(*facts);
        }
    }
    if facts.format_version != CURRENT_FORMAT_VERSION {
        return Err(ValidationError::UnsupportedVersion(facts.format_version));
    }
    let name = chars_of(facts.name.as_str());
    let (lo, hi) = trim_bounds(&name);
    if lo == hi {
        return Err(ValidationError::EmptyName);
    }
    if !facts.a4_reference_in_range {
        return Err(ValidationError::A4ReferenceOutOfRange);
    }
    if !facts.calibration_in_range {
        return Err(ValidationError::CalibrationOutOfRange);
    }
    if !facts.stretch_in_range {
        return Err(ValidationError::StretchOutOfRange);
    }
    if facts.curve_len != 88 {
        return Err(ValidationError::WrongCurveLength(facts.curve_len));
    }
    if let Some(index) = facts.first_non_finite_curve_value {
        return Err(ValidationError::NonFiniteCurveValue(index));
    }
    if !facts.temperament_offsets_in_range {
        return Err(ValidationError::TemperamentOffsetsOutOfRange);
    }
    let entries = &facts.inharmonicity;
    let mut i: usize = 0;
    assert(entries@.skip(0) == entries@);
    while i < entries.len()
        invariant
            i <= entries.len(),
            inharmonicity_error(entries@) == inharmonicity_error(entries@.skip(i as int)),
        decreases entries.len() - i,
    {
        let ghost rest = entries@.skip(i as int);
        assert(rest[0] == entries@[i as int]);
        assert(rest.drop_first() == entries@.skip(i + 1));
        if key_index_from_name(entries[i].0.as_str()).is_none() {
            return Err(ValidationError::UnknownNoteName(entries[i].0.clone()));
        }
        if !entries[i].1 {
            return Err(ValidationError::InvalidInharmonicity(entries[i].0.clone()));
        }
        i = i + 1;
    }
    assert(entries@.skip(entries.len() as int).len() == 0);
    Ok(())
}

/// `s` with `x` inserted after every item whose key is at most `x`'s key
/// (`s` being sorted by key, the result is too, and equal keys keep their order).
pub open spec fn insert_by_key<V>(s: Seq<(usize, V)>, x: (usize, V)) -> Seq<(usize, V)>
    decreases s.len(),
{
    if s.len() == 0 || s.last().0 <= x.0 {
        s.push(x)
    } else {
        insert_by_key(s.drop_last(), x).push(s.last())
    }
}

/// Stable sort by key (`slice::sort_by_key` on the key).
pub open spec fn sorted_by_key<V>(s: Seq<(usize, V)>) -> Seq<(usize, V)>
    decreases s.len(),
{
    if s.len() == 0 {
        s
    } else {
        insert_by_key(sorted_by_key(s.drop_last()), s.last())
    }
}

/// Is `s` in nondecreasing key order?
pub open spec fn is_sorted_by_key<V>(s: Seq<(usize, V)>) -> bool {
    forall|i: int, j: int| 0 <= i < j < s.len() ==> s[i].0 <= s[j].0
}

/// The entries whose note name parses, as `(key index, value)`, in the given order.
pub open spec fn keyed_entries<V>(entries: Seq<(String, V)>) -> Seq<(usize, V)>
    decreases entries.len(),
{
    if entries.len() == 0 {
        Seq::empty()
    } else {
        let rest = keyed_entries(entries.drop_last());
        match spec_key_index_from_name(entries.last().0@) {
            Some(k) => rest.push((k as usize, entries.last().1)),
            None => rest,
        }
    }
}

proof fn lemma_insert_by_key_split<V>(s: Seq<(usize, V)>, x: (usize, V), j: int)
    requires
        0 <= j <= s.len(),
        j == 0 || s[j - 1].0 <= x.0,
        forall|k: int| j <= k < s.len() ==> s[k].0 > x.0,
    ensures
        insert_by_key(s, x) == s.take(j).push(x) + s.skip(j),
    decreases s.len(),
{
    if s.len() == 0 || s.last().0 <= x.0 {
        assert(s.take(j).push(x) + s.skip(j) =~= s.push(x));
    } else {
        lemma_insert_by_key_split(s.drop_last(), x, j);
        assert(s.drop_last().take(j) == s.take(j));
        assert(s.take(j).push(x) + s.skip(j) =~= (s.take(j).push(x) + s.drop_last().skip(j)).push(
            s.last(),
        ));
    }
}

/// Inserting into a key-sorted sequence keeps it sorted.
pub proof fn lemma_insert_by_key_sorted<V>(s: Seq<(usize, V)>, x: (usize, V))
    requires
        is_sorted_by_key(s),
    ensures
        is_sorted_by_key(insert_by_key(s, x)),
        insert_by_key(s, x).to_multiset() == s.to_multiset().insert(x),
    decreases s.len(),
{
    if s.len() == 0 || s.last().0 <= x.0 {
        s.to_multiset_ensures();
    } else {
        let t = s.drop_last();
        lemma_insert_by_key_sorted(t, x);
        let r = insert_by_key(t, x);
        assert(s == t.push(s.last()));
        t.to_multiset_ensures();
        r.to_multiset_ensures();
        s.to_multiset_ensures();
        assert forall|i: int| 0 <= i < r.len() implies #[trigger] r[i].0 <= s.last().0 by {
            assert(r.to_multiset().count(r[i]) > 0);
            assert(t.to_multiset().insert(x).count(r[i]) > 0);
            if r[i] != x {
                assert(t.to_multiset().count(r[i]) > 0);
                assert(t.contains(r[i]));
                let k = choose|k: int| 0 <= k < t.len() && t[k] == r[i];
                assert(s[k] == t[k]);
            }
        }
        assert(r.push(s.last()).to_multiset() =~= s.to_multiset().insert(x));
    }
}

/// Sorting by key gives a key-sorted rearrangement of the same items.
pub proof fn lemma_sorted_by_key<V>(s: Seq<(usize, V)>)
    ensures
        is_sorted_by_key(sorted_by_key(s)),
        sorted_by_key(s).to_multiset() == s.to_multiset(),
    decreases s.len(),
{
    if s.len() == 0 {
    } else {
        lemma_sorted_by_key(s.drop_last());
        lemma_insert_by_key_sorted(sorted_by_key(s.drop_last()), s.last());
        s.drop_last().to_multiset_ensures();
        assert(s == s.drop_last().push(s.last()));
        s.to_multiset_ensures();
    }
}

/// Stable sort of `items` by key.
pub fn sort_by_key<V: Copy>(items: Vec<(usize, V)>) -> (sorted: Vec<(usize, V)>)
    ensures
        sorted@ == sorted_by_key(items@),
{
    let mut out: Vec<(usize, V)> = Vec::new();
    let mut i: usize = 0;
    while i < items.len()
        invariant
            i <= items.len(),
            out@ == sorted_by_key(items@.take(i as int)),
        decreases items.len() - i,
    {
        let x = items[i];
        let mut j: usize = out.len();
        while j > 0 && out[j - 1].0 > x.0
            invariant
                j <= out.len(),
                forall|k: int| j <= k < out.len() ==> out@[k].0 > x.0,
            decreases j,
        {
            j = j - 1;
        }
        proof {
            lemma_insert_by_key_split(out@, x, j as int);
        }
        let ghost before = out@;
        out.insert(j, x);
        assert(out@ =~= before.take(j as int).push(x) + before.skip(j as int));
        assert(items@.take(i + 1).drop_last() == items@.take(i as int));
        i = i + 1;
    }
    assert(items@.take(items.len() as int) == items@);
    out
}

/// `p` is the pair (key index of the note name, value) of one of `entries`
/// whose note name parses.
pub open spec fn is_pair_of_entry<V>(entries: Seq<(String, V)>, p: (usize, V)) -> bool {
    exists|i: int|
        #![trigger entries[i]]
        0 <= i < entries.len() && spec_key_index_from_name(entries[i].0@) is Some && p == (
            spec_key_index_from_name(entries[i].0@)->0 as usize,
            entries[i].1,
        )
}

/// The pair an entry stands for, if its note name parses: the key index of
/// the name and the entry's value.
pub open spec fn entry_pair<V>() -> spec_fn((String, V)) -> Option<(usize, V)> {
    |e: (String, V)|
        match spec_key_index_from_name(e.0@) {
            Some(k) => Some((k as usize, e.1)),
            None => None,
        }
}

proof fn lemma_keyed_entries_filter_map<V>(entries: Seq<(String, V)>)
    ensures
        keyed_entries(entries) == entries.filter_map(entry_pair::<V>()),
    decreases entries.len(),
{
    if entries.len() > 0 {
        lemma_keyed_entries_filter_map(entries.drop_last());
        let rest = entries.drop_last().filter_map(entry_pair::<V>());
        match spec_key_index_from_name(entries.last().0@) {
            Some(k) => {
                assert(rest + seq![(k as usize, entries.last().1)] =~= rest.push(
                    (k as usize, entries.last().1),
                ));
            },
            None => {},
        }
    }
}

proof fn lemma_keyed_entries_members<V>(entries: Seq<(String, V)>)
    ensures
        forall|i: int|
            #![trigger entries[i]]
            0 <= i < entries.len() && spec_key_index_from_name(entries[i].0@) is Some
                ==> keyed_entries(entries).contains(
                (spec_key_index_from_name(entries[i].0@)->0 as usize, entries[i].1),
            ),
        forall|j: int|
            0 <= j < keyed_entries(entries).len() ==> is_pair_of_entry(entries, #[trigger] keyed_entries(entries)[j]),
    decreases entries.len(),
{
    if entries.len() > 0 {
        let init = entries.drop_last();
        lemma_keyed_entries_members(init);
        let rest = keyed_entries(init);
        let all = keyed_entries(entries);
        assert forall|i: int|
            #![trigger entries[i]]
            0 <= i < entries.len() && spec_key_index_from_name(entries[i].0@) is Some implies all.contains(
            (spec_key_index_from_name(entries[i].0@)->0 as usize, entries[i].1),
        ) by {
            let p = (spec_key_index_from_name(entries[i].0@)->0 as usize, entries[i].1);
            if i < entries.len() - 1 {
                assert(init[i] == entries[i]);
                let m = choose|m: int| 0 <= m < rest.len() && rest[m] == p;
                assert(all[m] == rest[m]);
            } else {
                assert(all[all.len() - 1] == p);
            }
        }
        assert forall|j: int| 0 <= j < all.len() implies is_pair_of_entry(entries, #[trigger] all[j]) by {
            if j < rest.len() {
                assert(all[j] == rest[j]);
                assert(is_pair_of_entry(init, rest[j]));
                let i = choose|i: int|
                    #![trigger init[i]]
                    0 <= i < init.len() && spec_key_index_from_name(init[i].0@) is Some && rest[j] == (
                        spec_key_index_from_name(init[i].0@)->0 as usize,
                        init[i].1,
                    );
                assert(entries[i] == init[i]);
            } else {
                assert(entries[entries.len() - 1] == entries.last());
            }
        }
    }
}

/// Measured inharmonicity coefficients as `(key_index, B)` pairs, sorted by key.
/// Entries with unparseable note names are skipped.
///
/// No entry whose note name parses is lost: the result is in key order and
/// holds, as often as they occur, exactly the pairs (key index of the name,
/// value) of those entries.
pub fn inharmonicity_by_key<V: Copy>(entries: &Vec<(String, V)>) -> (by_key: Vec<(usize, V)>)
    ensures
        by_key@ == sorted_by_key(keyed_entries(entries@)),
        is_sorted_by_key(by_key@),
        by_key@.to_multiset() == entries@.filter_map(entry_pair::<V>()).to_multiset(),
        forall|i: int|
            #![trigger entries@[i]]
            0 <= i < entries.len() && spec_key_index_from_name(entries@[i].0@) is Some
                ==> by_key@.contains(
                (spec_key_index_from_name(entries@[i].0@)->0 as usize, entries@[i].1),
            ),
        forall|j: int|
            0 <= j < by_key.len() ==> is_pair_of_entry(entries@, #[trigger] by_key@[j]),
{
    let mut keyed: Vec<(usize, V)> = Vec::new();
    let mut i: usize = 0;
    while i < entries.len()
        invariant
            i <= entries.len(),
            keyed@ == keyed_entries(entries@.take(i as int)),
        decreases entries.len() - i,
    {
        assert(entries@.take(i + 1).drop_last() == entries@.take(i as int));
        match key_index_from_name(entries[i].0.as_str()) {
            Some(k) => keyed.push((k, entries[i].1)),
            None => {},
        }
        i = i + 1;
    }
    assert(entries@.take(entries.len() as int) == entries@);
    let by_key = sort_by_key(keyed);
    proof {
        lemma_inharmonicity_by_key_law(entries@);
        let out = sorted_by_key(keyed_entries(entries@));
        assert forall|j: int| 0 <= j < by_key.len() implies is_pair_of_entry(entries@, #[trigger] by_key@[j]) by {
            assert(by_key@[j] == out[j]);
        }
    }
    by_key
}

/// No parsable entry is lost: sorting the keyed entries gives a key-sorted
/// rearrangement of the pairs (key index of the name, value) of exactly the
/// entries whose note name parses; every such entry's pair is in it, and
/// every pair in it comes from such an entry.
pub proof fn lemma_inharmonicity_by_key_law<V>(entries: Seq<(String, V)>)
    ensures
        is_sorted_by_key(sorted_by_key(keyed_entries(entries))),
        sorted_by_key(keyed_entries(entries)).to_multiset() == entries.filter_map(
            entry_pair::<V>(),
        ).to_multiset(),
        forall|i: int|
            #![trigger entries[i]]
            0 <= i < entries.len() && spec_key_index_from_name(entries[i].0@) is Some
                ==> sorted_by_key(keyed_entries(entries)).contains(
                (spec_key_index_from_name(entries[i].0@)->0 as usize, entries[i].1),
            ),
        forall|j: int|
            0 <= j < sorted_by_key(keyed_entries(entries)).len() ==> is_pair_of_entry(entries, #[trigger] sorted_by_key(keyed_entries(entries))[j]),
{
    let keyed = keyed_entries(entries);
    let out = sorted_by_key(keyed);
    lemma_sorted_by_key(keyed);
    lemma_keyed_entries_filter_map(entries);
    lemma_keyed_entries_members(entries);
    keyed.to_multiset_ensures();
    out.to_multiset_ensures();
    assert forall|i: int|
        #![trigger entries[i]]
        0 <= i < entries.len() && spec_key_index_from_name(entries[i].0@) is Some implies out.contains(
        (spec_key_index_from_name(entries[i].0@)->0 as usize, entries[i].1),
    ) by {
        let p = (spec_key_index_from_name(entries[i].0@)->0 as usize, entries[i].1);
        assert(keyed.contains(p));
        assert(keyed.to_multiset().count(p) > 0);
        assert(out.to_multiset().count(p) > 0);
    }
    assert forall|j: int| 0 <= j < out.len() implies is_pair_of_entry(entries, #[trigger] out[j]) by {
        assert(out.contains(out[j]));
        assert(out.to_multiset().count(out[j]) > 0);
        assert(keyed.to_multiset().count(out[j]) > 0);
        assert(keyed.contains(out[j]));
        let m = choose|m: int| 0 <= m < keyed.len() && keyed[m] == out[j];
        assert(is_pair_of_entry(entries, keyed[m]));
    }
}

/// `n` in decimal, left-padded with zeros to at least `width` characters.
pub open spec fn zero_padded(n: nat, width: nat) -> Seq<char> {
    let s = decimal(n);
    if s.len() < width {
        Seq::new((width - s.len()) as nat, |i: int| '0') + s
    } else {
        s
    }
}

/// A year as `{:04}` prints it: the sign counts towards the width.
pub open spec fn year_text(y: int) -> Seq<char> {
    if y >= 0 {
        zero_padded(y as nat, 4)
    } else {
        seq!['-'] + zero_padded((-y) as nat, 3)
    }
}

/// `YYYY-MM-DDTHH:MM:SSZ` for `unix_secs` seconds after 1970-01-01T00:00:00Z.
pub open spec fn iso8601(unix_secs: int) -> Seq<char> {
    let days = unix_secs / 86400;
    let secs_of_day = unix_secs % 86400;
    let date = civil_date(days);
    year_text(date.0) + seq!['-'] + zero_padded(date.1 as nat, 2) + seq!['-']
        + zero_padded(date.2 as nat, 2) + seq!['T'] + zero_padded((secs_of_day / 3600) as nat, 2)
        + seq![':'] + zero_padded(((secs_of_day % 3600) / 60) as nat, 2) + seq![':']
        + zero_padded((secs_of_day % 60) as nat, 2) + seq!['Z']
}

/// Appends `n` in decimal, left-padded with zeros to `width` characters.
fn push_zero_padded(v: &mut Vec<char>, n: u64, width: usize)
    ensures
        final(v)@ == old(v)@ + zero_padded(n as nat, width as nat),
{
    let digits = decimal_chars(n);
    let ghost start = v@;
    let ghost pad_len: int = if digits.len() < width { width - digits.len() } else { 0 };
    let mut k: usize = digits.len();
    while k < width
        invariant
            digits@ == decimal(n as nat),
            digits.len() <= k,
            k <= width || k == digits.len(),
            v@ == start + Seq::new((k - digits.len()) as nat, |i: int| '0'),
        decreases width - k,
    {
        v.push('0');
        assert(Seq::new((k + 1 - digits.len()) as nat, |i: int| '0') =~= Seq::new(
            (k - digits.len()) as nat,
            |i: int| '0',
        ).push('0'));
        k = k + 1;
    }
    let ghost padded = v@;
    let mut i: usize = 0;
    while i < digits.len()
        invariant
            i <= digits.len(),
            v@ == padded + digits@.take(i as int),
        decreases digits.len() - i,
    {
        v.push(digits[i]);
        assert(digits@.take(i as int + 1) == digits@.take(i as int).push(digits@[i as int]));
        i = i + 1;
    }
    assert(digits@.take(digits.len() as int) == digits@);
    assert(v@ =~= start + zero_padded(n as nat, width as nat));
}

/// Format seconds since the Unix epoch as `YYYY-MM-DDTHH:MM:SSZ`.
pub fn format_iso8601(unix_secs: i64) -> (s: String)
    ensures
        s@ == iso8601(unix_secs as int),
{
    let days: i64 = match unix_secs.checked_div_euclid(86_400) {
        Some(q) => q,
        None => 0,
    };
    let secs_of_day: i64 = match unix_secs.checked_rem_euclid(86_400) {
        Some(r) => r,
        None => 0,
    };
    assert(days == (unix_secs as int) / 86400);
    assert(secs_of_day == (unix_secs as int) % 86400);
    let (year, month, day) = civil_from_days(days);
    let mut v: Vec<char> = Vec::new();
    if year >= 0 {
        push_zero_padded(&mut v, year as u64, 4);
    } else {
        v.push('-');
        push_zero_padded(&mut v, (-(year as i128)) as u64, 3);
    }
    v.push('-');
    push_zero_padded(&mut v, month as u64, 2);
    v.push('-');
    push_zero_padded(&mut v, day as u64, 2);
    v.push('T');
    push_zero_padded(&mut v, (secs_of_day / 3600) as u64, 2);
    v.push(':');
    push_zero_padded(&mut v, ((secs_of_day % 3600) / 60) as u64, 2);
    v.push(':');
    push_zero_padded(&mut v, (secs_of_day % 60) as u64, 2);
    v.push('Z');
    assert(v@ =~= iso8601(unix_secs as int));
    string_from_chars(&v)
}

/// `SystemTime::now()` as whole seconds after the Unix epoch, or `None`
/// when the clock reads earlier than the epoch. Nothing is claimed of the
/// value: it is whatever the system clock says.
#[verifier::external_body]
fn seconds_since_unix_epoch() -> Option<u64> {
    std::time::SystemTime::now().duration_since(std::time::UNIX_EPOCH).ok().map(|d| d.as_secs())
}

/// The second count a clock reading stands for: the reading as an `i64`
/// (wrapping as `as` does), or the epoch when the clock read earlier than it.
pub open spec fn clock_seconds(reading: Option<u64>) -> int {
    match reading {
        Some(d) => (d as i64) as int,
        None => 0,
    }
}

/// The timestamp of a clock reading in whole seconds after the Unix epoch
/// (`None` for a clock that reads before the epoch, which counts as the
/// epoch itself).
pub fn timestamp_from_clock(reading: Option<u64>) -> (s: String)
    ensures
        s@ == iso8601(clock_seconds(reading)),
{
    let secs: i64 = match reading {
        Some(d) => d as i64,
        None => 0,
    };
    format_iso8601(secs)
}

/// Current UTC time formatted as an ISO-8601 / RFC-3339 timestamp.
///
/// A clock that reads before the epoch counts as the epoch itself.
pub fn now_iso8601() -> (s: String)
    ensures
        exists|reading: Option<u64>| s@ == iso8601(clock_seconds(reading)),
{
    let reading = seconds_since_unix_epoch();
    timestamp_from_clock(reading)
}

} // verus!
