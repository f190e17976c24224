//! Settings and calibrations, and the boundary between persisted values and
//! the rest of the app.

use vstd::prelude::*;

#[allow(unused_imports)]
use crate::binary32::order::{lemma_of_int_exact, lemma_of_int_monotone, lemma_of_int_zero};
#[allow(unused_imports)]
use crate::binary32::{lemma_scaled_order, F32};
#[allow(unused_imports)]
use crate::engine::calibrate::{ceiling_is_sane, sane_ceiling};
use crate::engine::Tuning;
#[allow(unused_imports)]
use crate::sounds::{lemma_share_within_one, BuiltinSound};
#[allow(unused_imports)]
use crate::ui::meter::lemma_zero_is_least;

verus! {

/// The alert sound the app plays on a beep: one of the built-ins, or a
/// user-chosen file decoded at boot/selection time.
#[derive(Debug, Clone, PartialEq, Eq)]
pub enum AlertSound {
    Builtin(BuiltinSound),
    Custom { path: String },
}

impl Default for AlertSound {
    fn default() -> (r: AlertSound)
        ensures
            r == AlertSound::Builtin(BuiltinSound::SoftBeep),
    {
        AlertSound::Builtin(BuiltinSound::SoftBeep)
    }
}

#[derive(Debug, Clone, Copy, PartialEq, Eq, Structural)]
pub enum CalibrationState {
    BaselineOnly,
    CeilingSet,
    CeilingLearned,
}

#[derive(Debug, Clone, Copy, PartialEq, Eq, Structural)]
pub struct DeviceCalibration {
    pub state: CalibrationState,
    pub quiet_db: F32,
    pub ceiling_db: Option<F32>,
    pub noise_floor_db: F32,
    pub sensitivity: F32,
}

impl DeviceCalibration {
    /// Intentionally-invalid sentinel: a half-parsed entry (missing fields)
    /// must behave as uncalibrated rather than inventing a calibration.
    pub open spec fn sentinel() -> DeviceCalibration {
        DeviceCalibration {
            state: CalibrationState::BaselineOnly,
            quiet_db: F32::not_a_number(),
            ceiling_db: None,
            noise_floor_db: F32::not_a_number(),
            sensitivity: F32::of_ratio(1, 2),
        }
    }

    /// What the engine is told: nothing without a finite quiet point and noise
    /// floor, only a ceiling that is sane over the quiet point, and a
    /// sensitivity within its range.
    pub open spec fn tuned(self) -> Tuning {
        if !self.quiet_db.finite() || !self.noise_floor_db.finite() {
            Tuning::uncalibrated()
        } else {
            Tuning {
                noise_floor_db: self.noise_floor_db,
                quiet_db: Some(self.quiet_db),
                ceiling_db: match self.ceiling_db {
                    Some(c) => if c.finite() && sane_ceiling(self.quiet_db, c) {
                        Some(c)
                    } else {
                        None
                    },
                    None => None,
                },
                sensitivity: if self.sensitivity.finite() {
                    self.sensitivity.clamp_spec(F32::of_int(0), F32::of_int(1))
                } else {
                    F32::of_ratio(1, 2)
                },
            }
        }
    }

    /// The single boundary between persisted values and the engine: anything
    /// non-finite or out of range degrades to uncalibrated defaults instead of
    /// poisoning detection (config files get hand-edited).
    pub fn tuning(&self) -> (r: Tuning)
        ensures
            r == self.tuned(),
    {
        if !self.quiet_db.is_finite() || !self.noise_floor_db.is_finite() {
            return Tuning::default();
        }
        let sensitivity: F32 = if self.sensitivity.is_finite() {
            proof {
                lemma_zero_is_least(1);
            }
            self.sensitivity.clamp(F32::from_i32(0), F32::from_i32(1))
        } else {
            F32::ratio(1, 2)
        };
        let ceiling_db: Option<F32> = match self.ceiling_db {
            Some(c) => if c.is_finite() && ceiling_is_sane(self.quiet_db, c) {
                Some(c)
            } else {
                None
            },
            None => None,
        };
        Tuning {
            noise_floor_db: self.noise_floor_db,
            quiet_db: Some(self.quiet_db),
            ceiling_db,
            sensitivity,
        }
    }
}

impl Default for DeviceCalibration {
    fn default() -> (r: DeviceCalibration)
        ensures
            r == DeviceCalibration::sentinel(),
    {
        DeviceCalibration {
            state: CalibrationState::BaselineOnly,
            quiet_db: F32::quiet_nan(),
            ceiling_db: None,
            noise_floor_db: F32::quiet_nan(),
            sensitivity: F32::ratio(1, 2),
        }
    }
}

/// One device's calibration, by the device's name.
#[derive(Debug, Clone)]
pub struct Entry {
    pub device: String,
    pub calibration: DeviceCalibration,
}

/// Calibrations keyed by input device name; each device calibrates separately.
#[derive(Debug, Clone)]
pub struct Calibrations {
    entries: Vec<Entry>,
}

/// The calibration that a list of entries holds for each device.
pub open spec fn by_device(entries: Seq<Entry>) -> Map<Seq<char>, DeviceCalibration>
    decreases entries.len(),
{
    if entries.len() == 0 {
        Map::empty()
    } else {
        by_device(entries.drop_last()).insert(
            entries.last().device@,
            entries.last().calibration,
        )
    }
}

impl View for Calibrations {
    type V = Map<Seq<char>, DeviceCalibration>;

    closed spec fn view(&self) -> Map<Seq<char>, DeviceCalibration> {
        by_device(self.entries@)
    }
}

/// No device has two entries.
pub open spec fn distinct(entries: Seq<Entry>) -> bool {
    forall|i: int, j: int|
        0 <= i < j < entries.len() ==> (#[trigger] entries[i]).device@ != (
        #[trigger] entries[j]).device@
}

/// What a device without a second entry has is what its entry says.
proof fn lemma_entry_found(entries: Seq<Entry>, i: int)
    requires
        distinct(entries),
        0 <= i < entries.len(),
    ensures
        by_device(entries).dom().contains(entries[i].device@),
        by_device(entries)[entries[i].device@] == entries[i].calibration,
    decreases entries.len(),
{
    let rest = entries.drop_last();
    if i < rest.len() {
        assert forall|a: int, b: int| 0 <= a < b < rest.len() implies (
        #[trigger] rest[a]).device@ != (#[trigger] rest[b]).device@ by {
            assert(entries[a].device@ != entries[b].device@);
        }
        lemma_entry_found(rest, i);
        assert(entries[i].device@ != entries[entries.len() - 1].device@);
    }
}

/// A device without an entry has no calibration.
proof fn lemma_entry_missing(entries: Seq<Entry>, name: Seq<char>)
    requires
        forall|i: int| 0 <= i < entries.len() ==> (#[trigger] entries[i]).device@ != name,
    ensures
        !by_device(entries).dom().contains(name),
    decreases entries.len(),
{
    if entries.len() > 0 {
        let rest = entries.drop_last();
        assert forall|i: int| 0 <= i < rest.len() implies (#[trigger] rest[i]).device@ != name by {
            assert(entries[i].device@ != name);
        }
        lemma_entry_missing(rest, name);
        assert(entries[entries.len() - 1].device@ != name);
    }
}

/// Changing one entry's calibration changes that device's alone.
proof fn lemma_entry_updated(entries: Seq<Entry>, i: int, entry: Entry)
    requires
        distinct(entries),
        0 <= i < entries.len(),
        entry.device@ == entries[i].device@,
    ensures
        distinct(entries.update(i, entry)),
        by_device(entries.update(i, entry)) == by_device(entries).insert(
            entry.device@,
            entry.calibration,
        ),
    decreases entries.len(),
{
    let changed = entries.update(i, entry);
    assert forall|a: int, b: int| 0 <= a < b < changed.len() implies (
    #[trigger] changed[a]).device@ != (#[trigger] changed[b]).device@ by {
        assert(entries[a].device@ != entries[b].device@);
    }
    let rest = entries.drop_last();
    let last = entries.last();
    if i == entries.len() - 1 {
        assert(changed.drop_last() =~= rest);
        assert(by_device(changed) =~= by_device(entries).insert(entry.device@, entry.calibration));
    } else {
        assert forall|a: int, b: int| 0 <= a < b < rest.len() implies (
        #[trigger] rest[a]).device@ != (#[trigger] rest[b]).device@ by {
            assert(entries[a].device@ != entries[b].device@);
        }
        lemma_entry_updated(rest, i, entry);
        assert(changed.drop_last() =~= rest.update(i, entry));
        assert(changed.last() == last);
        assert(entries[i].device@ != entries[entries.len() - 1].device@);
        assert(by_device(changed) =~= by_device(entries).insert(entry.device@, entry.calibration));
    }
}

impl Calibrations {
    pub closed spec fn wf(self) -> bool {
        distinct(self.entries@)
    }

    pub fn new() -> (r: Calibrations)
        ensures
            r.wf(),
            r@ == Map::<Seq<char>, DeviceCalibration>::empty(),
    {
        Calibrations { entries: Vec::new() }
    }

    /// Where a device's entry stands.
    fn find(&self, device: &String) -> (r: Option<usize>)
        ensures
            match r {
                Some(i) => i < self.entries@.len() && self.entries@[i as int].device@ == device@,
                None => forall|j: int|
                    0 <= j < self.entries@.len() ==> (#[trigger] self.entries@[j]).device@
                        != device@,
            },
    {
        let mut i: usize = 0;
        while i < self.entries.len()
            invariant
                i <= self.entries@.len(),
                forall|j: int| 0 <= j < i ==> (#[trigger] self.entries@[j]).device@ != device@,
            decreases self.entries@.len() - i,
        {
            if self.entries[i].device == *device {
                return Some(i);
            }
            i = i + 1;
        }
        None
    }

    pub fn get(&self, device: &String) -> (r: Option<DeviceCalibration>)
        requires
            self.wf(),
        ensures
            r == (if self@.dom().contains(device@) {
                Some(self@[device@])
            } else {
                None
            }),
    {
        match self.find(device) {
            Some(i) => {
                proof {
                    lemma_entry_found(self.entries@, i as int);
                }
                Some(self.entries[i].calibration)
            },
            None => {
                proof {
                    lemma_entry_missing(self.entries@, device@);
                }
                None
            },
        }
    }

    /// Sets a device's calibration, whether it had one or not.
    pub fn insert(&mut self, device: String, calibration: DeviceCalibration)
        requires
            old(self).wf(),
        ensures
            final(self).wf(),
            final(self)@ == old(self)@.insert(device@, calibration),
    {
        match self.find(&device) {
            Some(i) => {
                proof {
                    lemma_entry_updated(
                        self.entries@,
                        i as int,
                        Entry { device, calibration },
                    );
                }
                self.entries.set(i, Entry { device, calibration });
            },
            None => {
                let ghost before = self.entries@;
                self.entries.push(Entry { device, calibration });
                assert(self.entries@.drop_last() =~= before);
            },
        }
    }

    /// How many devices are calibrated: the list holds each once, with its
    /// calibration.
    pub fn len(&self) -> (r: usize)
        requires
            self.wf(),
        ensures
            r == self.listed().len(),
            distinct(self.listed()),
            self@ == by_device(self.listed()),
    {
        self.entries.len()
    }

    /// The entries in the order they were first made.
    pub closed spec fn listed(self) -> Seq<Entry> {
        self.entries@
    }

    /// The entry at a place of the list.
    pub fn entry(&self, i: usize) -> (r: &Entry)
        requires
            i < self.listed().len(),
        ensures
            *r == self.listed()[i as int],
    {
        &self.entries[i]
    }
}

/// Every entry of one list is in the other: the same calibration for the same
/// device.
pub open spec fn includes(more: Seq<Entry>, fewer: Seq<Entry>) -> bool {
    forall|i: int| 0 <= i < fewer.len() ==> #[trigger] has_entry(more, fewer[i])
}

/// A list has an entry for a device, with that calibration.
pub open spec fn has_entry(entries: Seq<Entry>, entry: Entry) -> bool {
    exists|j: int|
        0 <= j < entries.len() && (#[trigger] entries[j]).device@ == entry.device@
            && entries[j].calibration == entry.calibration
}

impl Calibrations {
    /// Whether every entry of `other` is here, too.
    fn covers(&self, other: &Calibrations) -> (r: bool)
        ensures
            r == includes(self.listed(), other.listed()),
    {
        let mut i: usize = 0;
        while i < other.entries.len()
            invariant
                i <= other.entries@.len(),
                forall|k: int|
                    0 <= k < i ==> #[trigger] has_entry(self.entries@, other.entries@[k]),
            decreases other.entries@.len() - i,
        {
            let mut found: bool = false;
            let mut j: usize = 0;
            while j < self.entries.len() && !found
                invariant
                    i < other.entries@.len(),
                    j <= self.entries@.len(),
                    found ==> has_entry(self.entries@, other.entries@[i as int]),
                    !found ==> forall|k: int|
                        0 <= k < j ==> !((#[trigger] self.entries@[k]).device@
                            == other.entries@[i as int].device@ && self.entries@[k].calibration
                            == other.entries@[i as int].calibration),
                decreases self.entries@.len() - j,
            {
                let mine: &Entry = &self.entries[j];
                let theirs: &Entry = &other.entries[i];
                if mine.device == theirs.device && mine.calibration == theirs.calibration {
                    found = true;
                }
                j = j + 1;
            }
            if !found {
                assert(!has_entry(self.entries@, other.entries@[i as int]));
                return false;
            }
            i = i + 1;
        }
        true
    }
}

/// Two sets of calibrations are the same if each has what the other has,
/// whatever the order.
impl PartialEq for Calibrations {
    fn eq(&self, other: &Calibrations) -> (r: bool) {
        self.covers(other) && other.covers(self)
    }
}

impl vstd::std_specs::cmp::PartialEqSpecImpl for Calibrations {
    open spec fn obeys_eq_spec() -> bool {
        true
    }

    open spec fn eq_spec(&self, other: &Calibrations) -> bool {
        includes(self.listed(), other.listed()) && includes(other.listed(), self.listed())
    }
}

/// Calibrations are equal exactly when they hold the same for every device.
pub proof fn law_equal_calibrations_hold_the_same(a: Calibrations, b: Calibrations)
    requires
        a.wf(),
        b.wf(),
    ensures
        (includes(a.listed(), b.listed()) && includes(b.listed(), a.listed())) <==> a@ == b@,
{
    let x = a.listed();
    let y = b.listed();
    if includes(x, y) && includes(y, x) {
        lemma_included(x, y);
        lemma_included(y, x);
        assert(a@ =~= b@);
    }
    if a@ == b@ {
        lemma_same_included(x, y);
        lemma_same_included(y, x);
    }
}

/// What an included list holds, the other holds.
proof fn lemma_included(more: Seq<Entry>, fewer: Seq<Entry>)
    requires
        distinct(more),
        distinct(fewer),
        includes(more, fewer),
    ensures
        forall|name: Seq<char>| #[trigger]
            by_device(fewer).dom().contains(name) ==> by_device(more).dom().contains(name)
                && by_device(more)[name] == by_device(fewer)[name],
{
    assert forall|name: Seq<char>| #[trigger] by_device(fewer).dom().contains(name) implies by_device(
        more,
    ).dom().contains(name) && by_device(more)[name] == by_device(fewer)[name] by {
        if forall|i: int| 0 <= i < fewer.len() ==> (#[trigger] fewer[i]).device@ != name {
            lemma_entry_missing(fewer, name);
        }
        let i = choose|i: int| 0 <= i < fewer.len() && (#[trigger] fewer[i]).device@ == name;
        lemma_entry_found(fewer, i);
        assert(has_entry(more, fewer[i]));
        let j = choose|j: int|
            0 <= j < more.len() && (#[trigger] more[j]).device@ == fewer[i].device@
                && more[j].calibration == fewer[i].calibration;
        lemma_entry_found(more, j);
    }
}

/// Lists that hold the same include each other.
proof fn lemma_same_included(more: Seq<Entry>, fewer: Seq<Entry>)
    requires
        distinct(more),
        distinct(fewer),
        by_device(more) == by_device(fewer),
    ensures
        includes(more, fewer),
{
    assert forall|i: int| 0 <= i < fewer.len() implies #[trigger] has_entry(more, fewer[i]) by {
        lemma_entry_found(fewer, i);
        let name = fewer[i].device@;
        if forall|j: int| 0 <= j < more.len() ==> (#[trigger] more[j]).device@ != name {
            lemma_entry_missing(more, name);
        }
        let j = choose|j: int| 0 <= j < more.len() && (#[trigger] more[j]).device@ == name;
        lemma_entry_found(more, j);
    }
}

/// All settings.
#[derive(Debug, Clone, PartialEq)]
pub struct Config {
    pub hold_ms: u64,
    pub cooldown_ms: u64,
    pub calibration: Calibrations,
    /// ISO date ("2026-08-27") the calibration-incomplete banner was last
    /// dismissed; `None` before the first dismissal. Compared against
    /// today's date so the banner reappears once per day.
    pub banner_dismissed_on: Option<String>,
    /// Which sound plays on a beep.
    pub alert_sound: AlertSound,
    /// 0..=1; see `effective_volume` for the clamped/NaN-safe read.
    pub alert_volume: F32,
    /// `None` = the system default output device.
    pub output_device: Option<String>,
}

impl Config {
    pub open spec fn wf(self) -> bool {
        self.calibration.wf()
    }

    /// The settings of a first start.
    pub open spec fn is_default(self) -> bool {
        &&& self.hold_ms == 300
        &&& self.cooldown_ms == 3000
        &&& self.calibration@ == Map::<Seq<char>, DeviceCalibration>::empty()
        &&& self.banner_dismissed_on is None
        &&& self.alert_sound == AlertSound::Builtin(BuiltinSound::SoftBeep)
        &&& self.alert_volume == F32::of_ratio(8, 10)
        &&& self.output_device is None
    }

    /// The volume to play at.
    pub open spec fn volume(self) -> F32 {
        if self.alert_volume.finite() {
            self.alert_volume.clamp_spec(F32::of_int(0), F32::of_int(1))
        } else {
            F32::of_ratio(8, 10)
        }
    }

    /// The single boundary between the persisted volume and playback: out of
    /// range is clamped, and non-finite (hand-edited config) degrades to the
    /// default 0.8.
    pub fn effective_volume(&self) -> (r: F32)
        ensures
            r == self.volume(),
    {
        if self.alert_volume.is_finite() {
            proof {
                lemma_zero_is_least(1);
            }
            self.alert_volume.clamp(F32::from_i32(0), F32::from_i32(1))
        } else {
            F32::ratio(8, 10)
        }
    }

    /// Missing or unreadable/corrupt file yields defaults; the app must always
    /// start. `parsed` is what the file says, if it could be read as a whole.
    pub fn load_from(parsed: Option<RawConfig>) -> (r: Config)
        ensures
            r.wf(),
            match parsed {
                Some(raw) => raw.yields(r),
                None => r.is_default(),
            },
    {
        match parsed {
            Some(raw) => raw.into_config(),
            None => Config::default(),
        }
    }
}

impl Default for Config {
    fn default() -> (r: Config)
        ensures
            r.wf(),
            r.is_default(),
    {
        Config {
            hold_ms: 300,
            cooldown_ms: 3000,
            calibration: Calibrations::new(),
            banner_dismissed_on: None,
            alert_sound: AlertSound::default(),
            alert_volume: F32::ratio(8, 10),
            output_device: None,
        }
    }
}

/// One device's calibration as the file has it; `None` if it is malformed.
#[derive(Debug)]
pub struct RawEntry {
    pub device: String,
    pub calibration: Option<DeviceCalibration>,
}

/// Load-time mirror of `Config` where each calibration entry may still have
/// failed on its own; this lets one malformed device entry fail without
/// dragging down `hold_ms`/`cooldown_ms` or other devices' calibration.
#[derive(Debug)]
pub struct RawConfig {
    pub hold_ms: u64,
    pub cooldown_ms: u64,
    pub calibration: Vec<RawEntry>,
    pub banner_dismissed_on: Option<String>,
    pub alert_sound: AlertSound,
    pub alert_volume: F32,
    pub output_device: Option<String>,
}

impl Default for RawConfig {
    /// What an empty file says: every setting missing, each at its default.
    fn default() -> (r: RawConfig)
        ensures
            r.hold_ms == 300,
            r.cooldown_ms == 3000,
            r.calibration@.len() == 0,
            r.banner_dismissed_on is None,
            r.alert_sound == AlertSound::Builtin(BuiltinSound::SoftBeep),
            r.alert_volume == F32::of_ratio(8, 10),
            r.output_device is None,
    {
        let d: Config = Config::default();
        RawConfig {
            hold_ms: d.hold_ms,
            cooldown_ms: d.cooldown_ms,
            calibration: Vec::new(),
            banner_dismissed_on: None,
            alert_sound: d.alert_sound,
            alert_volume: d.alert_volume,
            output_device: d.output_device,
        }
    }
}

/// The calibrations that a file's entries stand for: a malformed one is the
/// uncalibrated sentinel. Of two entries for a device the later one counts.
pub open spec fn lenient(entries: Seq<RawEntry>) -> Map<Seq<char>, DeviceCalibration>
    decreases entries.len(),
{
    if entries.len() == 0 {
        Map::empty()
    } else {
        lenient(entries.drop_last()).insert(
            entries.last().device@,
            match entries.last().calibration {
                Some(c) => c,
                None => DeviceCalibration::sentinel(),
            },
        )
    }
}

impl RawConfig {
    /// The settings that a file stands for.
    pub open spec fn yields(self, c: Config) -> bool {
        &&& c.hold_ms == self.hold_ms
        &&& c.cooldown_ms == self.cooldown_ms
        &&& c.calibration@ == lenient(self.calibration@)
        &&& c.banner_dismissed_on == self.banner_dismissed_on
        &&& c.alert_sound == self.alert_sound
        &&& c.alert_volume == self.alert_volume
        &&& c.output_device == self.output_device
    }

    pub fn into_config(self) -> (r: Config)
        ensures
            r.wf(),
            self.yields(r),
    {
        let entries: Vec<RawEntry> = self.calibration;
        let mut calibration: Calibrations = Calibrations::new();
        let mut i: usize = 0;
        while i < entries.len()
            invariant
                i <= entries@.len(),
                calibration.wf(),
                calibration@ == lenient(entries@.take(i as int)),
            decreases entries@.len() - i,
        {
            let device: String = entries[i].device.clone();
            let cal: DeviceCalibration = match entries[i].calibration {
                Some(c) => c,
                None => DeviceCalibration::default(),
            };
            calibration.insert(device, cal);
            assert(entries@.take(i + 1).drop_last() =~= entries@.take(i as int));
            i = i + 1;
        }
        assert(entries@.take(i as int) =~= entries@);
        Config {
            hold_ms: self.hold_ms,
            cooldown_ms: self.cooldown_ms,
            calibration,
            banner_dismissed_on: self.banner_dismissed_on,
            alert_sound: self.alert_sound,
            alert_volume: self.alert_volume,
            output_device: self.output_device,
        }
    }
}

/// A share of 1/2 or 8/10 lies between zero and one.
proof fn lemma_share_in_range(n: int, d: int)
    requires
        0 <= n <= d <= 1000,
        1 <= d,
    ensures
        F32::of_int(0).le_spec(F32::of_ratio(n, d)),
        F32::of_ratio(n, d).le_spec(F32::of_int(1)),
        F32::of_ratio(n, d).finite(),
{
    lemma_share_within_one(n, d);
    lemma_of_int_monotone(1, 1);
    lemma_of_int_monotone(0, 1);
    lemma_zero_is_least(1);
    lemma_of_int_zero();
    let r = F32::of_ratio(n, d);
    lemma_scaled_order(F32::of_int(0), r);
    lemma_scaled_order(r, F32::of_int(1));
}

/// Whatever a config file holds, the engine is told nothing it could choke on:
/// a finite noise floor, a finite quiet point or none, a ceiling only if it is
/// finite and sane over that quiet point, and a sensitivity from 0 to 1.
pub proof fn law_tuning_is_always_sound(cal: DeviceCalibration)
    ensures
        ({
            let t = cal.tuned();
            &&& t.noise_floor_db.finite()
            &&& t.quiet_db matches Some(q) ==> q.finite()
            &&& t.ceiling_db matches Some(c) ==> c.finite() && t.quiet_db is Some && sane_ceiling(
                t.quiet_db->0,
                c,
            )
            &&& F32::of_int(0).le_spec(t.sensitivity)
            &&& t.sensitivity.le_spec(F32::of_int(1))
        }),
{
    lemma_of_int_exact(-55);
    lemma_zero_is_least(1);
    lemma_share_in_range(1, 2);
}

/// A half-parsed entry behaves as uncalibrated.
pub proof fn law_the_sentinel_is_uncalibrated()
    ensures
        DeviceCalibration::sentinel().tuned() == Tuning::uncalibrated(),
{
}

/// The volume played at is always from 0 to 1.
pub proof fn law_the_volume_is_always_in_range(c: Config)
    ensures
        F32::of_int(0).le_spec(c.volume()),
        c.volume().le_spec(F32::of_int(1)),
{
    lemma_zero_is_least(1);
    lemma_share_in_range(8, 10);
}

/// A bad entry spoils only itself: every well-formed entry whose device has no
/// later one comes through as it is.
pub proof fn law_a_bad_entry_spoils_only_itself(entries: Seq<RawEntry>, i: int)
    requires
        0 <= i < entries.len(),
        forall|j: int| i < j < entries.len() ==> (#[trigger] entries[j]).device@
            != entries[i].device@,
    ensures
        lenient(entries).dom().contains(entries[i].device@),
        lenient(entries)[entries[i].device@] == (match entries[i].calibration {
            Some(c) => c,
            None => DeviceCalibration::sentinel(),
        }),
    decreases entries.len(),
{
    let rest = entries.drop_last();
    if i < rest.len() {
        assert forall|j: int| i < j < rest.len() implies (#[trigger] rest[j]).device@
            != rest[i].device@ by {
            assert(entries[j].device@ != entries[i].device@);
        }
        law_a_bad_entry_spoils_only_itself(rest, i);
        assert(entries[entries.len() - 1].device@ != entries[i].device@);
    }
}

/// A calibration in order is used as it is: its quiet level and noise floor, its
/// ceiling if that is a number at least 3 dB above the quiet level, and its
/// sensitivity, brought into 0..=1. What is no number counts as missing: a
/// half for the sensitivity, and without a quiet level or a noise floor there
/// is no calibration at all.
pub proof fn law_a_calibration_is_used_as_far_as_it_is_sound(cal: DeviceCalibration)
    ensures
        ({
            let t = cal.tuned();
            let zero = F32::of_int(0);
            let one = F32::of_int(1);
            let s = cal.sensitivity;
            if cal.quiet_db.finite() && cal.noise_floor_db.finite() {
                &&& t.quiet_db == Some(cal.quiet_db)
                &&& t.noise_floor_db == cal.noise_floor_db
                &&& match cal.ceiling_db {
                    Some(c) => t.ceiling_db == (if c.finite() && F32::of_int(3).le_spec(
                        c.sub_spec(cal.quiet_db),
                    ) {
                        Some(c)
                    } else {
                        None
                    }),
                    None => t.ceiling_db is None,
                }
                &&& zero.le_spec(s) && s.le_spec(one) ==> t.sensitivity == s
                &&& s.finite() && s.lt_spec(zero) ==> t.sensitivity == zero
                &&& s.finite() && one.lt_spec(s) ==> t.sensitivity == one
                &&& !s.finite() ==> t.sensitivity == F32::of_ratio(1, 2)
            } else {
                &&& t.quiet_db is None && t.ceiling_db is None
                &&& t.noise_floor_db == F32::of_int(-55)
                &&& t.sensitivity == F32::of_ratio(1, 2)
            }
        }),
{
    let s = cal.sensitivity;
    lemma_of_int_exact(0);
    lemma_of_int_exact(1);
    lemma_zero_is_least(1);
    lemma_of_int_zero();
    lemma_of_int_monotone(0, 1);
    lemma_scaled_order(F32::of_int(0), s);
    lemma_scaled_order(s, F32::of_int(1));
}

/// The volume set is the volume played at, brought into 0..=1; 0.8 if it is no
/// number.
pub proof fn law_the_volume_set_is_played_at(c: Config)
    ensures
        ({
            let v = c.alert_volume;
            let zero = F32::of_int(0);
            let one = F32::of_int(1);
            &&& zero.le_spec(v) && v.le_spec(one) ==> c.volume() == v
            &&& v.finite() && v.lt_spec(zero) ==> c.volume() == zero
            &&& v.finite() && one.lt_spec(v) ==> c.volume() == one
            &&& !v.finite() ==> c.volume() == F32::of_ratio(8, 10)
        }),
{
    let v = c.alert_volume;
    lemma_of_int_exact(0);
    lemma_of_int_exact(1);
    lemma_zero_is_least(1);
    lemma_of_int_zero();
    lemma_of_int_monotone(0, 1);
    lemma_scaled_order(F32::of_int(0), v);
    lemma_scaled_order(v, F32::of_int(1));
}

/// Settings come through loading as the file has them, each on its own; and a
/// device has a calibration after loading exactly if the file names it.
pub proof fn law_settings_come_through_loading(raw: RawConfig, c: Config, name: Seq<char>)
    requires
        raw.yields(c),
    ensures
        c.hold_ms == raw.hold_ms,
        c.cooldown_ms == raw.cooldown_ms,
        c.banner_dismissed_on == raw.banner_dismissed_on,
        c.alert_sound == raw.alert_sound,
        c.alert_volume == raw.alert_volume,
        c.output_device == raw.output_device,
        c.calibration@.dom().contains(name) <==> exists|i: int|
            0 <= i < raw.calibration@.len() && (#[trigger] raw.calibration@[i]).device@ == name,
        forall|i: int|
            #![trigger raw.calibration@[i]]
            0 <= i < raw.calibration@.len() && raw.calibration@[i].device@ == name && (forall|j: int|
                i < j < raw.calibration@.len() ==> (#[trigger] raw.calibration@[j]).device@ != name)
                ==> c.calibration@[name] == (match raw.calibration@[i].calibration {
                Some(cal) => cal,
                None => DeviceCalibration::sentinel(),
            }),
{
    lemma_named_entries(raw.calibration@, name);
    assert forall|i: int|
        #![trigger raw.calibration@[i]]
        0 <= i < raw.calibration@.len() && raw.calibration@[i].device@ == name && (forall|j: int|
            i < j < raw.calibration@.len() ==> (#[trigger] raw.calibration@[j]).device@
                != name) implies c.calibration@[name] == (match raw.calibration@[i].calibration {
        Some(cal) => cal,
        None => DeviceCalibration::sentinel(),
    }) by {
        law_a_bad_entry_spoils_only_itself(raw.calibration@, i);
    }
}

proof fn lemma_named_entries(entries: Seq<RawEntry>, name: Seq<char>)
    ensures
        lenient(entries).dom().contains(name) <==> exists|i: int|
            0 <= i < entries.len() && (#[trigger] entries[i]).device@ == name,
    decreases entries.len(),
{
    if entries.len() > 0 {
        let rest = entries.drop_last();
        lemma_named_entries(rest, name);
        if exists|i: int| 0 <= i < rest.len() && (#[trigger] rest[i]).device@ == name {
            let i = choose|i: int| 0 <= i < rest.len() && (#[trigger] rest[i]).device@ == name;
            assert(entries[i].device@ == name);
        }
        if exists|i: int| 0 <= i < entries.len() && (#[trigger] entries[i]).device@ == name {
            let i = choose|i: int| 0 <= i < entries.len() && (#[trigger] entries[i]).device@ == name;
            if i < rest.len() {
                assert(rest[i].device@ == name);
            }
        }
        assert(entries[entries.len() - 1] == entries.last());
    }
}

/// On a first start an alert needs 300 ms of shouting and comes every 3 s at
/// most: a soft beep at 0.8 of the volume on the default device, with nothing
/// calibrated and nothing dismissed.
pub proof fn law_the_first_start_is_set_up_to_work(c: Config)
    requires
        c.is_default(),
    ensures
        c.hold_ms == 300,
        c.cooldown_ms == 3000,
        c.calibration@.dom() =~= Set::<Seq<char>>::empty(),
        c.banner_dismissed_on is None,
        c.alert_sound == AlertSound::Builtin(BuiltinSound::SoftBeep),
        c.volume() == F32::of_ratio(8, 10),
        c.output_device is None,
{
    lemma_share_in_range(8, 10);
    law_the_volume_set_is_played_at(c);
}

} // verus!
