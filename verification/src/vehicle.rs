//! What the mapping says of a vehicle: its class, its status, its tires.

use crate::text;
use vstd::prelude::*;
use vstd::string::*;

verus! {

/// What tells one vehicle of a session from another.
#[derive(Debug, Eq, Hash)]
pub struct VehicleKey {
    pub id: i32,
    pub vehicle_filename: String,
    pub vehicle_name: String,
}

/// The value of a [`VehicleKey`].
#[verifier::ext_equal]
pub struct KeyView {
    pub id: i32,
    pub vehicle_filename: Seq<char>,
    pub vehicle_name: Seq<char>,
}

impl View for VehicleKey {
    type V = KeyView;

    open spec fn view(&self) -> KeyView {
        KeyView {
            id: self.id,
            vehicle_filename: self.vehicle_filename@,
            vehicle_name: self.vehicle_name@,
        }
    }
}

impl PartialEq for VehicleKey {
    fn eq(&self, other: &VehicleKey) -> (same: bool) {
        self.id == other.id && self.vehicle_filename == other.vehicle_filename && self.vehicle_name
            == other.vehicle_name
    }
}

impl vstd::std_specs::cmp::PartialEqSpecImpl for VehicleKey {
    open spec fn obeys_eq_spec() -> bool {
        true
    }

    open spec fn eq_spec(&self, other: &VehicleKey) -> bool {
        self@ == other@
    }
}

impl Clone for VehicleKey {
    fn clone(&self) -> (copy: VehicleKey)
        ensures
            copy == *self,
    {
        VehicleKey {
            id: self.id,
            vehicle_filename: self.vehicle_filename.clone(),
            vehicle_name: self.vehicle_name.clone(),
        }
    }
}

/// The view of an optional key.
pub open spec fn optional_key(key: Option<VehicleKey>) -> Option<KeyView> {
    match key {
        Some(key) => Some(key@),
        None => None,
    }
}

#[derive(Clone, Copy, Debug, PartialEq, Eq, Structural, Hash)]
pub enum VehicleClass {
    Hypercar,
    Lmp2Elms,
    Lmp2,
    Lmp3,
    Gte,
    Lmgt3,
    PaceCar,
    Unknown,
}

impl Default for VehicleClass {
    fn default() -> (class: VehicleClass)
        ensures
            class == VehicleClass::Unknown,
    {
        VehicleClass::Unknown
    }
}

impl VehicleClass {
    /// The classes in the order in which they are shown.
    pub const ORDER: [VehicleClass; 8] = [
        VehicleClass::Hypercar,
        VehicleClass::Lmp2,
        VehicleClass::Lmp2Elms,
        VehicleClass::Lmp3,
        VehicleClass::Gte,
        VehicleClass::Lmgt3,
        VehicleClass::PaceCar,
        VehicleClass::Unknown,
    ];

    /// The short name.
    pub open spec fn label_text(self) -> Seq<char> {
        match self {
            VehicleClass::Hypercar => "HYP"@,
            VehicleClass::Lmp2Elms => "P2E"@,
            VehicleClass::Lmp2 => "P2"@,
            VehicleClass::Lmp3 => "P3"@,
            VehicleClass::Gte => "GTE"@,
            VehicleClass::Lmgt3 => "GT3"@,
            VehicleClass::PaceCar => "SC"@,
            VehicleClass::Unknown => "—"@,
        }
    }

    /// The full name.
    pub open spec fn name_text(self) -> Seq<char> {
        match self {
            VehicleClass::Hypercar => "Hypercar"@,
            VehicleClass::Lmp2Elms => "LMP2 ELMS"@,
            VehicleClass::Lmp2 => "LMP2"@,
            VehicleClass::Lmp3 => "LMP3"@,
            VehicleClass::Gte => "GTE"@,
            VehicleClass::Lmgt3 => "LMGT3"@,
            VehicleClass::PaceCar => "Pace Car"@,
            VehicleClass::Unknown => "Unknown"@,
        }
    }

    /// The short name.
    pub fn label(self) -> (label: &'static str)
        ensures
            label@ == self.label_text(),
    {
        match self {
            VehicleClass::Hypercar => "HYP",
            VehicleClass::Lmp2Elms => "P2E",
            VehicleClass::Lmp2 => "P2",
            VehicleClass::Lmp3 => "P3",
            VehicleClass::Gte => "GTE",
            VehicleClass::Lmgt3 => "GT3",
            VehicleClass::PaceCar => "SC",
            VehicleClass::Unknown => "—",
        }
    }

    /// The full name.
    pub fn name(self) -> (name: &'static str)
        ensures
            name@ == self.name_text(),
    {
        match self {
            VehicleClass::Hypercar => "Hypercar",
            VehicleClass::Lmp2Elms => "LMP2 ELMS",
            VehicleClass::Lmp2 => "LMP2",
            VehicleClass::Lmp3 => "LMP3",
            VehicleClass::Gte => "GTE",
            VehicleClass::Lmgt3 => "LMGT3",
            VehicleClass::PaceCar => "Pace Car",
            VehicleClass::Unknown => "Unknown",
        }
    }
}

/// Every class has one place in the order.
pub proof fn law_order_lists_each_class_once(class: VehicleClass)
    ensures
        exists|i: int| 0 <= i < 8 && VehicleClass::ORDER[i] == class,
        forall|i: int, j: int|
            0 <= i < 8 && 0 <= j < 8 && VehicleClass::ORDER[i] == class && VehicleClass::ORDER[j]
                == class ==> i == j,
{
    let order = VehicleClass::ORDER@;
    assert(order[0] is Hypercar && order[1] is Lmp2 && order[2] is Lmp2Elms && order[3] is Lmp3
        && order[4] is Gte && order[5] is Lmgt3 && order[6] is PaceCar && order[7] is Unknown);
}

#[derive(Clone, Copy, Debug, PartialEq, Eq, Structural)]
pub enum VehicleStatus {
    /// Nothing to say of the vehicle: it runs.
    NoStatus,
    PitRequested,
    PitIn,
    Pit,
    PitOut,
    Garage,
    Finished,
    Dnf,
    Disqualified,
}

impl Default for VehicleStatus {
    fn default() -> (status: VehicleStatus)
        ensures
            status == VehicleStatus::NoStatus,
    {
        VehicleStatus::NoStatus
    }
}

#[derive(Debug, Eq)]
pub struct TireCompound {
    pub front: String,
    pub rear: String,
}

/// The value of a [`TireCompound`].
#[verifier::ext_equal]
pub struct CompoundView {
    pub front: Seq<char>,
    pub rear: Seq<char>,
}

impl View for TireCompound {
    type V = CompoundView;

    open spec fn view(&self) -> CompoundView {
        CompoundView { front: self.front@, rear: self.rear@ }
    }
}

impl PartialEq for TireCompound {
    fn eq(&self, other: &TireCompound) -> (same: bool) {
        self.front == other.front && self.rear == other.rear
    }
}

impl vstd::std_specs::cmp::PartialEqSpecImpl for TireCompound {
    open spec fn obeys_eq_spec() -> bool {
        true
    }

    open spec fn eq_spec(&self, other: &TireCompound) -> bool {
        self@ == other@
    }
}

impl Clone for TireCompound {
    fn clone(&self) -> (copy: TireCompound)
        ensures
            copy == *self,
    {
        TireCompound { front: self.front.clone(), rear: self.rear.clone() }
    }
}

impl Default for TireCompound {
    /// No compound known.
    fn default() -> (tires: TireCompound)
        ensures
            tires.front@ == Seq::<char>::empty(),
            tires.rear@ == Seq::<char>::empty(),
    {
        TireCompound { front: String::new(), rear: String::new() }
    }
}

/// The short form of a compound's name: a letter for a known kind, otherwise the first
/// characters of the name, and nothing for a name that is blank.
pub open spec fn compact(name: Seq<char>) -> Option<Seq<char>> {
    let value = text::trimmed(name);
    let lower = text::lowered(value);
    if value.len() == 0 {
        None
    } else if text::has_part(lower, "soft"@) {
        Some("S"@)
    } else if text::has_part(lower, "medium"@) {
        Some("M"@)
    } else if text::has_part(lower, "hard"@) {
        Some("H"@)
    } else if text::has_part(lower, "wet"@) {
        Some("W"@)
    } else if value.len() <= 6 {
        Some(value)
    } else {
        Some(value.take(6))
    }
}

/// The short form of a pair of compounds: one where both ends have the same or only one
/// is known, otherwise both.
pub open spec fn tire_label(tires: CompoundView) -> Seq<char> {
    match (compact(tires.front), compact(tires.rear)) {
        (None, None) => "—"@,
        (Some(one), None) => one,
        (None, Some(one)) => one,
        (Some(front), Some(rear)) => if front == rear {
            front
        } else {
            "F:"@ + front + " R:"@ + rear
        },
    }
}

/// Shortens a compound's name.
pub fn compact_compound(value: &str) -> (short: Option<String>)
    ensures
        text::optional_text(short) == compact(value@),
{
    let value_trimmed: String = text::trim(value);
    if value_trimmed.as_str().is_empty() {
        return None;
    }
    let lower: Vec<char> = text::lower_chars(value_trimmed.as_str());
    let label: &str = if text::contains(&lower, "soft") {
        "S"
    } else if text::contains(&lower, "medium") {
        "M"
    } else if text::contains(&lower, "hard") {
        "H"
    } else if text::contains(&lower, "wet") {
        "W"
    } else {
        let chars: Vec<char> = text::chars_of(value_trimmed.as_str());
        let kept: usize = if chars.len() <= 6 {
            chars.len()
        } else {
            6
        };
        assert(chars@.subrange(0, chars@.len() as int) =~= chars@);
        assert(chars@.subrange(0, kept as int) =~= chars@.take(kept as int));
        return Some(text::string_of(&chars, 0, kept));
    };
    Some(label.to_owned())
}

impl TireCompound {
    /// The short form of the pair.
    pub fn label(&self) -> (label: String)
        ensures
            label@ == tire_label(self@),
    {
        let front: Option<String> = compact_compound(self.front.as_str());
        let rear: Option<String> = compact_compound(self.rear.as_str());
        match (front, rear) {
            (None, None) => "—".to_owned(),
            (Some(one), None) => one,
            (None, Some(one)) => one,
            (Some(a), Some(b)) => {
                if a == b {
                    return a;
                }
                let mut label: String = "F:".to_owned();
                label.append(a.as_str());
                label.append(" R:");
                label.append(b.as_str());
                label
            },
        }
    }
}

/// Laps behind another, from a signed count: none where it is negative, and no more than
/// fit.
pub open spec fn clamped_laps(value: int) -> u16 {
    if value < 0 {
        0
    } else if value > u16::MAX {
        u16::MAX
    } else {
        value as u16
    }
}

/// Converts a signed count of laps.
pub fn lap_gap(value: i32) -> (laps: u16)
    ensures
        laps == clamped_laps(value as int),
{
    if value < 0 {
        0
    } else if value > 0xffff {
        0xffff
    } else {
        value as u16
    }
}

/// The class with a telemetry code.
pub open spec fn coded_class(code: u8) -> VehicleClass {
    if code == 0 {
        VehicleClass::Hypercar
    } else if code == 2 {
        VehicleClass::Lmp2Elms
    } else if code == 3 {
        VehicleClass::Lmp2
    } else if code == 4 {
        VehicleClass::Lmp3
    } else if code == 5 {
        VehicleClass::Gte
    } else if code == 6 {
        VehicleClass::Lmgt3
    } else if code == 8 {
        VehicleClass::PaceCar
    } else {
        VehicleClass::Unknown
    }
}

/// Finds the class with a telemetry code.
pub fn class_from_code(value: u8) -> (class: VehicleClass)
    ensures
        class == coded_class(value),
{
    match value {
        0 => VehicleClass::Hypercar,
        2 => VehicleClass::Lmp2Elms,
        3 => VehicleClass::Lmp2,
        4 => VehicleClass::Lmp3,
        5 => VehicleClass::Gte,
        6 => VehicleClass::Lmgt3,
        8 => VehicleClass::PaceCar,
        _ => VehicleClass::Unknown,
    }
}

/// The class that a name tells, in any case of letters: the first of these whose words
/// stand in it.
pub open spec fn named_class(name: Seq<char>) -> VehicleClass {
    let lower = text::lowered(name);
    if text::has_part(lower, "hypercar"@) || text::has_part(lower, "lmh"@) || text::has_part(
        lower,
        "lmdh"@,
    ) {
        VehicleClass::Hypercar
    } else if text::has_part(lower, "lmp2"@) && text::has_part(lower, "elms"@) {
        VehicleClass::Lmp2Elms
    } else if text::has_part(lower, "lmp2"@) {
        VehicleClass::Lmp2
    } else if text::has_part(lower, "lmp3"@) {
        VehicleClass::Lmp3
    } else if text::has_part(lower, "lmgt3"@) || lower == "gt3"@ || text::has_part(
        lower,
        " gt3"@,
    ) {
        VehicleClass::Lmgt3
    } else if text::has_part(lower, "gte"@) {
        VehicleClass::Gte
    } else if text::has_part(lower, "pace"@) || text::has_part(lower, "safety"@) {
        VehicleClass::PaceCar
    } else {
        VehicleClass::Unknown
    }
}

/// Finds the class that a name tells.
pub fn class_from_name(value: &str) -> (class: VehicleClass)
    ensures
        class == named_class(value@),
{
    proof {
        reveal_strlit("gt3");
        assert(text::lowered("gt3"@) =~= "gt3"@);
    }
    let lower: Vec<char> = text::lower_chars(value);
    if text::contains(&lower, "hypercar") || text::contains(&lower, "lmh") || text::contains(
        &lower,
        "lmdh",
    ) {
        VehicleClass::Hypercar
    } else if text::contains(&lower, "lmp2") && text::contains(&lower, "elms") {
        VehicleClass::Lmp2Elms
    } else if text::contains(&lower, "lmp2") {
        VehicleClass::Lmp2
    } else if text::contains(&lower, "lmp3") {
        VehicleClass::Lmp3
    } else if text::contains(&lower, "lmgt3") || text::eq_ignore_ascii_case(value, "gt3")
        || text::contains(&lower, " gt3") {
        VehicleClass::Lmgt3
    } else if text::contains(&lower, "gte") {
        VehicleClass::Gte
    } else if text::contains(&lower, "pace") || text::contains(&lower, "safety") {
        VehicleClass::PaceCar
    } else {
        VehicleClass::Unknown
    }
}

/// The status: how the race ended for the vehicle before the garage, and that before
/// what it does at the pits.
pub open spec fn vehicle_status(finish: u8, pit: u8, in_pits: bool, garage: bool) -> VehicleStatus {
    if finish == 3 {
        VehicleStatus::Disqualified
    } else if finish == 2 {
        VehicleStatus::Dnf
    } else if finish == 1 {
        VehicleStatus::Finished
    } else if garage {
        VehicleStatus::Garage
    } else if pit == 1 {
        VehicleStatus::PitRequested
    } else if pit == 2 {
        VehicleStatus::PitIn
    } else if pit == 3 {
        VehicleStatus::Pit
    } else if pit == 4 {
        VehicleStatus::PitOut
    } else if in_pits {
        VehicleStatus::Pit
    } else {
        VehicleStatus::NoStatus
    }
}

/// Finds the status.
pub fn status(finish: u8, pit: u8, in_pits: bool, garage: bool) -> (status: VehicleStatus)
    ensures
        status == vehicle_status(finish, pit, in_pits, garage),
{
    match finish {
        3 => VehicleStatus::Disqualified,
        2 => VehicleStatus::Dnf,
        1 => VehicleStatus::Finished,
        _ => if garage {
            VehicleStatus::Garage
        } else {
            match pit {
                1 => VehicleStatus::PitRequested,
                2 => VehicleStatus::PitIn,
                3 => VehicleStatus::Pit,
                4 => VehicleStatus::PitOut,
                _ => if in_pits {
                    VehicleStatus::Pit
                } else {
                    VehicleStatus::NoStatus
                },
            }
        },
    }
}

/// How a vehicle's race ended is shown wherever it stands.
pub proof fn law_finish_outranks_place(
    finish: u8,
    pit: u8,
    in_pits: bool,
    garage: bool,
    other_pit: u8,
    other_in_pits: bool,
    other_garage: bool,
)
    requires
        1 <= finish <= 3,
    ensures
        vehicle_status(finish, pit, in_pits, garage) == vehicle_status(
            finish,
            other_pit,
            other_in_pits,
            other_garage,
        ),
{
}

/// A pair of compounds with the same name has the short form of that name.
pub proof fn law_same_compounds_share_label(name: Seq<char>)
    ensures
        tire_label(CompoundView { front: name, rear: name }) == match compact(name) {
            Some(short) => short,
            None => "—"@,
        },
{
}

/// Whether the character does not occur in the text.
spec fn lacks(text: Seq<char>, c: char) -> bool {
    forall|i: int| 0 <= i < text.len() ==> text[i] != c
}

/// A text that lacks a character of the part does not have the part.
proof fn lemma_missing_char(text: Seq<char>, part: Seq<char>, k: int)
    requires
        0 <= k < part.len(),
        lacks(text, part[k]),
    ensures
        !text::has_part(text, part),
{
    assert forall|at: int| !text::stands_at(text, part, at) by {
        if text::stands_at(text, part, at) {
            assert(text.subrange(at, at + part.len())[k] == text[at + k]);
        }
    }
}

/// A text has a part that stands at a place of it.
proof fn lemma_part_at(text: Seq<char>, part: Seq<char>, at: int)
    requires
        0 <= at <= text.len() - part.len(),
        forall|k: int| 0 <= k < part.len() ==> text[at + k] == #[trigger] part[k],
    ensures
        text::has_part(text, part),
{
    assert(text.subrange(at, at + part.len()) =~= part);
    assert(text::stands_at(text, part, at));
}

/// No word for a hypercar stands in a text without an `h`.
proof fn lemma_no_hypercar(lower: Seq<char>)
    requires
        lacks(lower, 'h'),
    ensures
        !text::has_part(lower, "hypercar"@),
        !text::has_part(lower, "lmh"@),
        !text::has_part(lower, "lmdh"@),
{
    reveal_strlit("hypercar");
    reveal_strlit("lmh");
    reveal_strlit("lmdh");
    lemma_missing_char(lower, "hypercar"@, 0);
    lemma_missing_char(lower, "lmh"@, 2);
    lemma_missing_char(lower, "lmdh"@, 3);
}

/// No word for a prototype or for LMGT3 stands in a text without an `l` and a `3`.
proof fn lemma_no_prototype(lower: Seq<char>)
    requires
        lacks(lower, 'l'),
        lacks(lower, '3'),
    ensures
        !text::has_part(lower, "lmp2"@),
        !text::has_part(lower, "lmp3"@),
        !text::has_part(lower, "lmgt3"@),
        !text::has_part(lower, " gt3"@),
        lower != "gt3"@,
{
    reveal_strlit("lmp2");
    reveal_strlit("lmp3");
    reveal_strlit("lmgt3");
    reveal_strlit(" gt3");
    reveal_strlit("gt3");
    lemma_missing_char(lower, "lmp2"@, 0);
    lemma_missing_char(lower, "lmp3"@, 0);
    lemma_missing_char(lower, "lmgt3"@, 0);
    lemma_missing_char(lower, " gt3"@, 3);
    assert("gt3"@[2] == '3');
}

proof fn lemma_tells_hypercar(lower: Seq<char>)
    requires
        lower == text::lowered("Hypercar"@),
    ensures
        text::has_part(lower, "hypercar"@),
{
    reveal_strlit("Hypercar");
    reveal_strlit("hypercar");
    lemma_part_at(lower, "hypercar"@, 0);
}

proof fn lemma_tells_elms(lower: Seq<char>)
    requires
        lower == text::lowered("LMP2 ELMS"@),
    ensures
        lacks(lower, 'h'),
        text::has_part(lower, "lmp2"@),
        text::has_part(lower, "elms"@),
{
    reveal_strlit("LMP2 ELMS");
    reveal_strlit("lmp2");
    reveal_strlit("elms");
    lemma_part_at(lower, "lmp2"@, 0);
    lemma_part_at(lower, "elms"@, 5);
}

proof fn lemma_tells_lmp2(lower: Seq<char>)
    requires
        lower == text::lowered("LMP2"@),
    ensures
        lacks(lower, 'h'),
        text::has_part(lower, "lmp2"@),
        !text::has_part(lower, "elms"@),
{
    reveal_strlit("LMP2");
    reveal_strlit("lmp2");
    reveal_strlit("elms");
    lemma_part_at(lower, "lmp2"@, 0);
    lemma_missing_char(lower, "elms"@, 0);
}

proof fn lemma_tells_lmp3(lower: Seq<char>)
    requires
        lower == text::lowered("LMP3"@),
    ensures
        lacks(lower, 'h'),
        !text::has_part(lower, "lmp2"@),
        text::has_part(lower, "lmp3"@),
{
    reveal_strlit("LMP3");
    reveal_strlit("lmp2");
    reveal_strlit("lmp3");
    lemma_missing_char(lower, "lmp2"@, 3);
    lemma_part_at(lower, "lmp3"@, 0);
}

proof fn lemma_tells_lmgt3(lower: Seq<char>)
    requires
        lower == text::lowered("LMGT3"@),
    ensures
        lacks(lower, 'h'),
        !text::has_part(lower, "lmp2"@),
        !text::has_part(lower, "lmp3"@),
        text::has_part(lower, "lmgt3"@),
{
    reveal_strlit("LMGT3");
    reveal_strlit("lmp2");
    reveal_strlit("lmp3");
    reveal_strlit("lmgt3");
    lemma_missing_char(lower, "lmp2"@, 2);
    lemma_missing_char(lower, "lmp3"@, 2);
    lemma_part_at(lower, "lmgt3"@, 0);
}

proof fn lemma_tells_gte(lower: Seq<char>)
    requires
        lower == text::lowered("GTE"@),
    ensures
        lacks(lower, 'h'),
        lacks(lower, 'l'),
        lacks(lower, '3'),
        text::has_part(lower, "gte"@),
{
    reveal_strlit("GTE");
    reveal_strlit("gte");
    lemma_part_at(lower, "gte"@, 0);
}

proof fn lemma_tells_pace_car(lower: Seq<char>)
    requires
        lower == text::lowered("Pace Car"@),
    ensures
        lacks(lower, 'h'),
        lacks(lower, 'l'),
        lacks(lower, '3'),
        !text::has_part(lower, "gte"@),
        text::has_part(lower, "pace"@),
{
    reveal_strlit("Pace Car");
    reveal_strlit("gte");
    reveal_strlit("pace");
    lemma_missing_char(lower, "gte"@, 0);
    lemma_part_at(lower, "pace"@, 0);
}

proof fn lemma_tells_unknown(lower: Seq<char>)
    requires
        lower == text::lowered("Unknown"@),
    ensures
        lacks(lower, 'h'),
        lacks(lower, 'l'),
        lacks(lower, '3'),
        !text::has_part(lower, "gte"@),
        !text::has_part(lower, "pace"@),
        !text::has_part(lower, "safety"@),
{
    reveal_strlit("Unknown");
    reveal_strlit("gte");
    reveal_strlit("pace");
    reveal_strlit("safety");
    lemma_missing_char(lower, "gte"@, 0);
    lemma_missing_char(lower, "pace"@, 0);
    lemma_missing_char(lower, "safety"@, 0);
}

/// The full name of a class, in any case of letters, tells that class.
pub proof fn law_names_tell_their_class(name: Seq<char>, class: VehicleClass)
    requires
        text::same_ignoring_case(name, class.name_text()),
    ensures
        named_class(name) == class,
{
    let lower = text::lowered(name);
    match class {
        VehicleClass::Hypercar => {
            lemma_tells_hypercar(lower);
        },
        VehicleClass::Lmp2Elms => {
            lemma_tells_elms(lower);
            lemma_no_hypercar(lower);
        },
        VehicleClass::Lmp2 => {
            lemma_tells_lmp2(lower);
            lemma_no_hypercar(lower);
        },
        VehicleClass::Lmp3 => {
            lemma_tells_lmp3(lower);
            lemma_no_hypercar(lower);
        },
        VehicleClass::Lmgt3 => {
            lemma_tells_lmgt3(lower);
            lemma_no_hypercar(lower);
        },
        VehicleClass::Gte => {
            lemma_tells_gte(lower);
            lemma_no_hypercar(lower);
            lemma_no_prototype(lower);
        },
        VehicleClass::PaceCar => {
            lemma_tells_pace_car(lower);
            lemma_no_hypercar(lower);
            lemma_no_prototype(lower);
        },
        VehicleClass::Unknown => {
            lemma_tells_unknown(lower);
            lemma_no_hypercar(lower);
            lemma_no_prototype(lower);
        },
    }
}

/// The codes of the classes, and that any other code stands for none.
pub proof fn law_codes_tell_their_class(code: u8)
    ensures
        coded_class(code) is Hypercar <==> code == 0,
        coded_class(code) is Lmp2Elms <==> code == 2,
        coded_class(code) is Lmp2 <==> code == 3,
        coded_class(code) is Lmp3 <==> code == 4,
        coded_class(code) is Gte <==> code == 5,
        coded_class(code) is Lmgt3 <==> code == 6,
        coded_class(code) is PaceCar <==> code == 8,
{
}

/// The words by which a name tells a class, in any case of letters, and which of them count
/// before others.
pub proof fn law_words_tell_the_class(name: Seq<char>)
    ensures
        ({
            let lower = text::lowered(name);
            let class = named_class(name);
            let hypercar = text::has_part(lower, "hypercar"@) || text::has_part(lower, "lmh"@)
                || text::has_part(lower, "lmdh"@);
            let lmp2 = !hypercar && text::has_part(lower, "lmp2"@);
            let lmp3 = !hypercar && !lmp2 && text::has_part(lower, "lmp3"@);
            let gt3 = !hypercar && !lmp2 && !lmp3 && (text::has_part(lower, "lmgt3"@)
                || text::has_part(lower, " gt3"@) || lower == "gt3"@);
            let gte = !hypercar && !lmp2 && !lmp3 && !gt3 && text::has_part(lower, "gte"@);
            &&& class is Hypercar <==> hypercar
            &&& class is Lmp2Elms <==> lmp2 && text::has_part(lower, "elms"@)
            &&& class is Lmp2 <==> lmp2 && !text::has_part(lower, "elms"@)
            &&& class is Lmp3 <==> lmp3
            &&& class is Lmgt3 <==> gt3
            &&& class is Gte <==> gte
            &&& class is PaceCar <==> !hypercar && !lmp2 && !lmp3 && !gt3 && !gte && (
            text::has_part(lower, "pace"@) || text::has_part(lower, "safety"@))
        }),
{
}

/// Names that differ only in the case of letters tell the same class.
pub proof fn law_case_does_not_tell(a: Seq<char>, b: Seq<char>)
    requires
        text::same_ignoring_case(a, b),
    ensures
        named_class(a) == named_class(b),
{
}

/// When each status is shown.
pub proof fn law_status(finish: u8, pit: u8, in_pits: bool, garage: bool)
    ensures
        ({
            let status = vehicle_status(finish, pit, in_pits, garage);
            let ended = finish == 1 || finish == 2 || finish == 3;
            &&& status is Finished <==> finish == 1
            &&& status is Dnf <==> finish == 2
            &&& status is Disqualified <==> finish == 3
            &&& status is Garage <==> !ended && garage
            &&& status is PitRequested <==> !ended && !garage && pit == 1
            &&& status is PitIn <==> !ended && !garage && pit == 2
            &&& status is PitOut <==> !ended && !garage && pit == 4
            &&& status is Pit <==> !ended && !garage && (pit == 3 || (in_pits && !(1 <= pit <= 4)))
            &&& status is NoStatus <==> !ended && !garage && !in_pits && !(1 <= pit <= 4)
        }),
{
}

/// Laps behind another are never negative, and are those counted as far as they fit.
pub proof fn law_laps_are_clamped(value: int)
    ensures
        value <= 0 ==> clamped_laps(value) == 0,
        0 <= value <= 65535 ==> clamped_laps(value) == value,
        value >= 65535 ==> clamped_laps(value) == 65535,
{
}

/// The short form of a compound: a letter for a kind that stands in the name, where a softer
/// kind counts before a harder one and both before rain tires; else the name without the
/// white space around it, as far as its sixth character; and none for a blank name.
pub proof fn law_short_compounds(name: Seq<char>)
    ensures
        ({
            let value = text::trimmed(name);
            let lower = text::lowered(value);
            let soft = text::has_part(lower, "soft"@);
            let medium = text::has_part(lower, "medium"@);
            let hard = text::has_part(lower, "hard"@);
            let wet = text::has_part(lower, "wet"@);
            &&& compact(name) is None <==> value.len() == 0
            &&& value.len() > 0 && soft ==> compact(name) == Some("S"@)
            &&& value.len() > 0 && !soft && medium ==> compact(name) == Some("M"@)
            &&& value.len() > 0 && !soft && !medium && hard ==> compact(name) == Some("H"@)
            &&& value.len() > 0 && !soft && !medium && !hard && wet ==> compact(name) == Some("W"@)
            &&& value.len() > 0 && !soft && !medium && !hard && !wet ==> {
                let short = compact(name)->0;
                &&& short.len() == if value.len() < 6 {
                    value.len()
                } else {
                    6
                }
                &&& forall|i: int| 0 <= i < short.len() ==> #[trigger] short[i] == value[i]
            }
        }),
{
}

/// The label of a pair of compounds: a dash where neither is known, the one that is known or
/// that both are, and else both, the front first.
pub proof fn law_tire_labels(front: Seq<char>, rear: Seq<char>)
    ensures
        ({
            let label = tire_label(CompoundView { front, rear });
            let (a, b) = (compact(front), compact(rear));
            &&& a is None && b is None ==> label == "—"@
            &&& a is Some && b is None ==> label == a->0
            &&& a is None && b is Some ==> label == b->0
            &&& a is Some && b is Some && a->0 == b->0 ==> label == a->0
            &&& a is Some && b is Some && a->0 != b->0 ==> label == "F:"@ + a->0 + " R:"@ + b->0
        }),
{
}

} // verus!
