//! Application-level decisions that do not involve measured frequencies:
//! screens, which key the tuner works on, and temperament selection.

use vstd::prelude::*;

verus! {

/// Top level screens of the app.
#[derive(Debug, Clone, Copy, PartialEq, Eq, Structural)]
pub enum Screen {
    Tuner,
    Spectrum,
    Measurement,
    Settings,
    Library,
}

/// The key the tuner is currently working on: a locked key wins over the
/// detected one.
pub fn active_key(locked: Option<usize>, detected: Option<usize>) -> (key: Option<usize>)
    ensures
        key == (if locked is Some { locked } else { detected }),
{
    match locked {
        Some(k) => Some(k),
        None => detected,
    }
}

/// The detected key after a new detection whose nearest key is `nearest`:
/// it follows the detection only while no key is locked.
pub fn detected_key_after(locked: Option<usize>, previous: Option<usize>, nearest: Option<usize>) -> (key: Option<usize>)
    ensures
        key == (if locked is None { nearest } else { previous }),
{
    if locked.is_none() {
        nearest
    } else {
        previous
    }
}

/// The lock after pressing the lock button.
pub open spec fn spec_toggle_lock(locked: Option<usize>, detected: Option<usize>) -> Option<usize> {
    if locked is Some {
        None
    } else {
        detected
    }
}

/// The lock after tapping key `key` on the keyboard strip.
pub open spec fn spec_tap_key(locked: Option<usize>, key: usize) -> Option<usize> {
    if locked == Some(key) {
        None
    } else {
        Some(key)
    }
}

/// The lock after pressing the lock button: a locked key is released, and
/// otherwise the detected key (if any) becomes locked.
pub fn toggle_lock(locked: Option<usize>, detected: Option<usize>) -> (lock: Option<usize>)
    ensures
        lock == spec_toggle_lock(locked, detected),
{
    match locked {
        Some(_) => None,
        None => detected,
    }
}

/// The lock after tapping key `key` on the keyboard strip: tapping the
/// locked key releases it, tapping any other key locks that key.
pub fn tap_key(locked: Option<usize>, key: usize) -> (lock: Option<usize>)
    ensures
        lock == spec_tap_key(locked, key),
{
    match locked {
        Some(k) => if k == key {
            None
        } else {
            Some(key)
        },
        None => Some(key),
    }
}

/// Tapping a key locks it, and tapping it again releases it, whatever was
/// locked before.
pub proof fn lemma_tap_twice_unlocks(locked: Option<usize>, key: usize)
    ensures
        spec_tap_key(spec_tap_key(locked, key), key) == (if locked == Some(key) { Some(key) } else { None }),
{
}

/// Pressing the lock button twice from a locked state locks the detected key.
pub proof fn lemma_toggle_twice(locked: Option<usize>, detected: Option<usize>)
    requires
        locked is Some,
    ensures
        spec_toggle_lock(spec_toggle_lock(locked, detected), detected) == detected,
{
}

/// Index of the selected temperament: the chosen index when it is in range,
/// else the first one.
pub fn resolve_temperament_index(index: usize, count: usize) -> (resolved: usize)
    requires
        count > 0,
    ensures
        resolved == (if index < count { index } else { 0 }),
        resolved < count,
{
    if index < count {
        index
    } else {
        0
    }
}

/// Position of the first name equal to `name`.
pub fn position_by_name(names: &Vec<String>, name: &str) -> (pos: Option<usize>)
    ensures
        pos matches Some(i) ==> i < names.len() && names@[i as int]@ == name@ && forall|j: int|
            0 <= j < i ==> names@[j]@ != name@,
        pos is None ==> forall|j: int| 0 <= j < names.len() ==> names@[j]@ != name@,
{
    let mut i: usize = 0;
    while i < names.len()
        invariant
            i <= names.len(),
            forall|j: int| 0 <= j < i ==> names@[j]@ != name@,
        decreases names.len() - i,
    {
        let candidate: &str = names[i].as_str();
        if string_eq(candidate, name) {
            return Some(i);
        }
        i = i + 1;
    }
    None
}

/// `str == str`.
fn string_eq(a: &str, b: &str) -> (eq: bool)
    ensures
        eq == (a@ == b@),
{
    let x = crate::text::chars_of(a);
    let y = crate::text::chars_of(b);
    if x.len() != y.len() {
        return false;
    }
    let mut i: usize = 0;
    while i < x.len()
        invariant
            i <= x.len(),
            x.len() == y.len(),
            x@ == a@,
            y@ == b@,
            forall|j: int| 0 <= j < i ==> x@[j] == y@[j],
        decreases x.len() - i,
    {
        if x[i] != y[i] {
            return false;
        }
        i = i + 1;
    }
    assert(x@ =~= y@);
    true
}

/// Is `found` a position among `len` items?
pub open spec fn is_position(found: Option<usize>, len: nat) -> bool {
    found matches Some(i) && i < len
}

/// Select the item at `found` when that is a position in `items`;
/// otherwise append `item` and select it. Returns the selected position.
pub fn select_or_append<T>(items: &mut Vec<T>, found: Option<usize>, item: T) -> (selected: usize)
    ensures
        is_position(found, old(items)@.len()) ==> final(items)@ == old(items)@ && Some(selected)
            == found,
        !is_position(found, old(items)@.len()) ==> final(items)@ == old(items)@.push(item) && selected
            == old(items).len(),
        selected < final(items).len(),
{
    match found {
        Some(i) => if i < items.len() {
            return i;
        },
        None => {},
    }
    items.push(item);
    items.len() - 1
}

/// Why the inharmonicity of the current note cannot be measured yet.
#[derive(Debug, Clone, Copy, PartialEq, Eq, Structural)]
pub enum MeasurementError {
    /// No key is detected or locked.
    NoNoteDetected,
    /// Fewer than two partials were detected.
    TooFewPartials,
}

/// The key a new inharmonicity measurement is stored for, given the active
/// key and the number of detected partials.
pub fn measurement_key(active: Option<usize>, partial_count: usize) -> (r: Result<usize, MeasurementError>)
    ensures
        r == (match active {
            None => Err(MeasurementError::NoNoteDetected),
            Some(k) => if partial_count < 2 {
                Err(MeasurementError::TooFewPartials)
            } else {
                Ok(k)
            },
        }),
{
    match active {
        None => Err(MeasurementError::NoNoteDetected),
        Some(k) => if partial_count < 2 {
            Err(MeasurementError::TooFewPartials)
        } else {
            Ok(k)
        },
    }
}

} // verus!
