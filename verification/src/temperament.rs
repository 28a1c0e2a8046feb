//! The built-in temperaments: their names, menu order and lookup, and the
//! mapping from piano keys to the C-based pitch classes that temperament
//! offsets are indexed by.

use vstd::prelude::*;

use crate::text::{ascii_eq_ignore_case, ascii_lower, eq_ignore_ascii_case, string_from_chars};

verus! {

/// A built-in temperament.
#[derive(Debug, Clone, Copy, PartialEq, Eq, Structural)]
pub enum Preset {
    Equal,
    WerckmeisterIii,
    KirnbergerIii,
    Vallotti,
    Young,
    MeantoneQuarterComma,
    Pythagorean,
}

/// The display name of a preset.
pub open spec fn preset_name(p: Preset) -> Seq<char> {
    match p {
        Preset::Equal => seq!['E', 'q', 'u', 'a', 'l'],
        Preset::WerckmeisterIii => seq![
            'W', 'e', 'r', 'c', 'k', 'm', 'e', 'i', 's', 't', 'e', 'r', ' ', 'I', 'I', 'I'
        ],
        Preset::KirnbergerIii => seq!['K', 'i', 'r', 'n', 'b', 'e', 'r', 'g', 'e', 'r', ' ', 'I', 'I', 'I'],
        Preset::Vallotti => seq!['V', 'a', 'l', 'l', 'o', 't', 't', 'i'],
        Preset::Young => seq!['Y', 'o', 'u', 'n', 'g'],
        Preset::MeantoneQuarterComma => seq![
            'M', 'e', 'a', 'n', 't', 'o', 'n', 'e', ' ', '(', '1', '/', '4', ' ', 'c', 'o', 'm', 'm', 'a', ')'
        ],
        Preset::Pythagorean => seq!['P', 'y', 't', 'h', 'a', 'g', 'o', 'r', 'e', 'a', 'n'],
    }
}

/// Every built-in temperament, in menu order.
pub open spec fn preset_menu() -> Seq<Preset> {
    seq![
        Preset::Equal,
        Preset::WerckmeisterIii,
        Preset::KirnbergerIii,
        Preset::Vallotti,
        Preset::Young,
        Preset::MeantoneQuarterComma,
        Preset::Pythagorean,
    ]
}

/// The first preset in menu order whose name matches `name`, ignoring ASCII case.
pub open spec fn spec_preset_by_name(name: Seq<char>) -> Option<Preset> {
    let i = choose|i: int| 0 <= i < 7 && ascii_eq_ignore_case(preset_name(preset_menu()[i]), name)
        && forall|j: int| 0 <= j < i ==> !ascii_eq_ignore_case(preset_name(preset_menu()[j]), name);
    if exists|i: int| 0 <= i < 7 && ascii_eq_ignore_case(preset_name(preset_menu()[i]), name) {
        Some(preset_menu()[i])
    } else {
        None
    }
}

/// Index of piano key `key_index` (`0 = A0`) among the C-based pitch classes
/// (`0 = C` .. `11 = B`).
pub open spec fn spec_chromatic_index(key_index: int) -> int {
    (key_index % 12 + 9) % 12
}

impl Preset {
    /// The display name of this preset.
    pub fn name(&self) -> (name: String)
        ensures
            name@ == preset_name(*self),
    {
        let v: Vec<char> = match self {
            Preset::Equal => vec!['E', 'q', 'u', 'a', 'l'],
            Preset::WerckmeisterIii => vec![
                'W', 'e', 'r', 'c', 'k', 'm', 'e', 'i', 's', 't', 'e', 'r', ' ', 'I', 'I', 'I'
            ],
            Preset::KirnbergerIii => vec![
                'K', 'i', 'r', 'n', 'b', 'e', 'r', 'g', 'e', 'r', ' ', 'I', 'I', 'I'
            ],
            Preset::Vallotti => vec!['V', 'a', 'l', 'l', 'o', 't', 't', 'i'],
            Preset::Young => vec!['Y', 'o', 'u', 'n', 'g'],
            Preset::MeantoneQuarterComma => vec![
                'M', 'e', 'a', 'n', 't', 'o', 'n', 'e', ' ', '(', '1', '/', '4', ' ', 'c', 'o', 'm', 'm', 'a', ')'
            ],
            Preset::Pythagorean => vec!['P', 'y', 't', 'h', 'a', 'g', 'o', 'r', 'e', 'a', 'n'],
        };
        assert(v@ =~= preset_name(*self));
        string_from_chars(&v)
    }

    /// Every built-in temperament, in menu order.
    pub fn all() -> (presets: Vec<Preset>)
        ensures
            presets@ == preset_menu(),
    {
        let v = vec![
            Preset::Equal,
            Preset::WerckmeisterIii,
            Preset::KirnbergerIii,
            Preset::Vallotti,
            Preset::Young,
            Preset::MeantoneQuarterComma,
            Preset::Pythagorean,
        ];
        assert(v@ =~= preset_menu());
        v
    }

    /// Look up a preset by name (case-insensitive).
    pub fn by_name(name: &str) -> (found: Option<Preset>)
        ensures
            found == spec_preset_by_name(name@),
    {
        let presets = Preset::all();
        let mut i: usize = 0;
        while i < presets.len()
            invariant
                i <= presets.len(),
                presets@ == preset_menu(),
                forall|j: int|
                    0 <= j < i ==> !ascii_eq_ignore_case(preset_name(#[trigger] preset_menu()[j]), name@),
            decreases presets.len() - i,
        {
            let p = presets[i];
            let n = p.name();
            if eq_ignore_ascii_case(n.as_str(), name) {
                proof {
                    let k = i as int;
                    assert(0 <= k < 7 && ascii_eq_ignore_case(preset_name(preset_menu()[k]), name@));
                    let c = choose|c: int| 0 <= c < 7 && ascii_eq_ignore_case(
                        preset_name(preset_menu()[c]),
                        name@,
                    ) && forall|j: int|
                        0 <= j < c ==> !ascii_eq_ignore_case(preset_name(preset_menu()[j]), name@);
                    assert(c == k) by {
                        if c < k {
                            assert(!ascii_eq_ignore_case(preset_name(preset_menu()[c]), name@));
                        }
                        if k < c {
                            assert(!ascii_eq_ignore_case(preset_name(preset_menu()[k]), name@));
                        }
                    }
                }
                return Some(p);
            }
            i = i + 1;
        }
        None
    }
}

/// Index of piano key `key_index` among the C-based pitch classes that
/// temperament offsets are listed by (key indices count from A).
pub fn chromatic_index(key_index: usize) -> (index: usize)
    ensures
        index == spec_chromatic_index(key_index as int),
        index < 12,
        index as int == (key_index as int + 9) % 12,
{
    proof {
        lemma_chromatic_index_is_distance_from_c(key_index as int);
    }
    (key_index % 12 + 9) % 12
}

/// Preset names differ even when letter case is ignored.
pub proof fn lemma_preset_names_distinct(p: Preset, q: Preset)
    requires
        ascii_eq_ignore_case(preset_name(p), preset_name(q)),
    ensures
        p == q,
{
    let a = preset_name(p);
    let b = preset_name(q);
    assert(ascii_lower(a[0]) == ascii_lower(b[0]));
}

/// Looking a preset up by its own name finds that preset.
pub proof fn lemma_preset_by_own_name(p: Preset)
    ensures
        spec_preset_by_name(preset_name(p)) == Some(p),
{
    let n = preset_name(p);
    let k: int = match p {
        Preset::Equal => 0,
        Preset::WerckmeisterIii => 1,
        Preset::KirnbergerIii => 2,
        Preset::Vallotti => 3,
        Preset::Young => 4,
        Preset::MeantoneQuarterComma => 5,
        Preset::Pythagorean => 6,
    };
    assert(preset_menu()[k] == p);
    assert(ascii_eq_ignore_case(preset_name(preset_menu()[k]), n));
    assert forall|j: int| 0 <= j < 7 && ascii_eq_ignore_case(preset_name(preset_menu()[j]), n) implies j
        == k by {
        lemma_preset_names_distinct(preset_menu()[j], p);
    }
}

/// The pitch class of a key is its distance in semitones from a C, modulo
/// 12: key 3 (C1) is class 0, and each key up is one class up, B wrapping
/// round to C.
pub proof fn lemma_chromatic_index_steps(key_index: int)
    requires
        0 <= key_index,
    ensures
        spec_chromatic_index(3) == 0,
        spec_chromatic_index(key_index + 1) == (spec_chromatic_index(key_index) + 1) % 12,
        0 <= spec_chromatic_index(key_index) < 12,
{
}

/// Every key's pitch class is `(key + 9) % 12`: nine semitones from C up to A0.
pub proof fn lemma_chromatic_index_is_distance_from_c(key_index: int)
    requires
        0 <= key_index,
    ensures
        spec_chromatic_index(key_index) == (key_index + 9) % 12,
    decreases key_index,
{
    if key_index > 0 {
        lemma_chromatic_index_is_distance_from_c(key_index - 1);
        lemma_chromatic_index_steps(key_index - 1);
    } else {
        lemma_chromatic_index_steps(0);
        assert(spec_chromatic_index(0) == 9) by {
            lemma_chromatic_index_steps(0);
            lemma_chromatic_index_steps(1);
            lemma_chromatic_index_steps(2);
        }
    }
}

/// The pitch class of a key repeats every octave.
pub proof fn lemma_chromatic_index_octave_invariant(key_index: int)
    requires
        0 <= key_index,
    ensures
        spec_chromatic_index(key_index + 12) == spec_chromatic_index(key_index),
{
}

} // verus!
