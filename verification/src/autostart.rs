//! Launch-at-login (the per-user `Run` registry key) and the per-user
//! single-instance guard (a named mutex). Both exist on Windows only; elsewhere
//! nothing was attempted, and the answers are inert.
//!
//! The registry is the runtime source of truth for whether autostart is on.

use vstd::prelude::*;
use vstd::string::{StrSliceExecFns, StringExecFns};

verus! {

/// Session-local since this is a per-user tray app, not a service shared
/// across sessions.
pub const MUTEX_NAME: &'static str = "ragequiet-single-instance";

pub const RUN_KEY: &'static str = "Software\\Microsoft\\Windows\\CurrentVersion\\Run";

pub const VALUE_NAME: &'static str = "ragequiet";

/// The status of a call that went well.
pub const STATUS_OK: u32 = 0;

/// The value to delete was not there.
pub const STATUS_NOT_FOUND: u32 = 2;

/// The mutex was there already.
pub const STATUS_ALREADY_EXISTS: u32 = 183;

/// Quote a path for a Run-key command line: wraps it in double quotes so a
/// path containing spaces still parses as a single token when Windows splits
/// the Run value into a command line. No arguments are appended.
pub fn quoted_command(path: &str) -> (r: String)
    ensures
        r@ == seq!['"'] + path@ + seq!['"'],
{
    proof {
        reveal_strlit("\"");
    }
    let mut command: String = "\"".to_owned();
    command.append(path);
    command.append("\"");
    assert(command@ =~= seq!['"'] + path@ + seq!['"']);
    command
}

/// A character in UTF-16: one unit, or a pair of surrogates beyond the basic
/// plane.
pub open spec fn utf16_of(c: char) -> Seq<u16> {
    let code = c as int;
    if code < 0x1_0000 {
        seq![code as u16]
    } else {
        let offset = code - 0x1_0000;
        seq![(0xd800 + offset / 0x400) as u16, (0xdc00 + offset % 0x400) as u16]
    }
}

/// A text in UTF-16.
pub open spec fn utf16(s: Seq<char>) -> Seq<u16>
    decreases s.len(),
{
    if s.len() == 0 {
        Seq::empty()
    } else {
        utf16(s.drop_last()) + utf16_of(s.last())
    }
}

/// Encode a string as a null-terminated UTF-16 buffer.
pub fn to_wide(s: &str) -> (r: Vec<u16>)
    ensures
        r@ == utf16(s@).push(0),
{
    let n: usize = s.unicode_len();
    let mut wide: Vec<u16> = Vec::new();
    let mut i: usize = 0;
    assert(s@.take(0) =~= Seq::<char>::empty());
    while i < n
        invariant
            n == s@.len(),
            i <= n,
            wide@ == utf16(s@.take(i as int)),
        decreases n - i,
    {
        let c: char = s.get_char(i);
        let code: u32 = c as u32;
        let ghost before = wide@;
        if code < 0x1_0000 {
            wide.push(code as u16);
        } else {
            let offset: u32 = code - 0x1_0000;
            wide.push((0xd800 + offset / 0x400) as u16);
            wide.push((0xdc00 + offset % 0x400) as u16);
        }
        proof {
            assert(s@.take(i + 1).drop_last() =~= s@.take(i as int));
            assert(wide@ =~= before + utf16_of(c));
        }
        i = i + 1;
    }
    assert(s@.take(n as int) =~= s@);
    wide.push(0);
    wide
}

/// The bytes of a registry string: each unit low byte first, with the
/// trailing NUL.
pub open spec fn unit_bytes(wide: Seq<u16>) -> Seq<u8> {
    Seq::new(
        2 * wide.len(),
        |i: int|
            if i % 2 == 0 {
                (wide[i / 2] % 256) as u8
            } else {
                (wide[i / 2] / 256) as u8
            },
    )
}

fn to_bytes(wide: &Vec<u16>) -> (r: Vec<u8>)
    ensures
        r@ == unit_bytes(wide@),
{
    let mut bytes: Vec<u8> = Vec::new();
    let mut i: usize = 0;
    while i < wide.len()
        invariant
            i <= wide@.len(),
            bytes@ == unit_bytes(wide@.take(i as int)),
        decreases wide@.len() - i,
    {
        bytes.push((wide[i] % 256) as u8);
        bytes.push((wide[i] / 256) as u8);
        i = i + 1;
        assert(bytes@ =~= unit_bytes(wide@.take(i as int)));
    }
    assert(wide@.take(i as int) =~= wide@);
    bytes
}

/// The data of the Run value for an executable: its quoted path as a registry
/// string.
pub fn run_value(exe: &str) -> (r: Vec<u8>)
    ensures
        r@ == unit_bytes(utf16(seq!['"'] + exe@ + seq!['"']).push(0)),
{
    let command: String = quoted_command(exe);
    to_bytes(&to_wide(command.as_str()))
}

/// How taking the mutex went.
#[derive(Debug, Clone, Copy, PartialEq, Eq, Structural)]
pub struct MutexAttempt {
    /// A handle came back.
    pub created: bool,
    /// The error code set by the call.
    pub last_error: u32,
}

/// Whether this is the only instance. Returns `false` when another instance
/// already holds the mutex. A failure to create it for some unexpected reason
/// must never block startup, and `None` stands for a platform without one.
pub fn acquire_single_instance(mutex: Option<MutexAttempt>) -> (r: bool)
    ensures
        r == !(mutex matches Some(m) && m.created && m.last_error == STATUS_ALREADY_EXISTS),
{
    match mutex {
        Some(m) => !m.created || m.last_error != STATUS_ALREADY_EXISTS,
        None => true,
    }
}

/// A registry call that failed, with its error code.
#[derive(Debug, Clone, Copy, PartialEq, Eq, Structural)]
pub enum AutostartError {
    CreateKey(u32),
    SetValue(u32),
    DeleteValue(u32),
}

impl AutostartError {
    /// The call that failed.
    pub fn call(self) -> (r: &'static str)
        ensures
            r == (match self {
                AutostartError::CreateKey(_) => "RegCreateKeyExW",
                AutostartError::SetValue(_) => "RegSetValueExW",
                AutostartError::DeleteValue(_) => "RegDeleteValueW",
            }),
    {
        match self {
            AutostartError::CreateKey(_) => "RegCreateKeyExW",
            AutostartError::SetValue(_) => "RegSetValueExW",
            AutostartError::DeleteValue(_) => "RegDeleteValueW",
        }
    }
}

/// The statuses of the registry calls that a change makes: opening the key,
/// and, if that went well, setting or deleting the value.
#[derive(Debug, Clone, Copy, PartialEq, Eq, Structural)]
pub struct RegistryCalls {
    pub open: u32,
    pub change: u32,
}

/// How enabling/disabling launch-at-login went. Enabling writes the value;
/// disabling deletes it (a value that is already missing is not an error).
/// `None` stands for a platform without a registry.
pub fn set_autostart(enabled: bool, calls: Option<RegistryCalls>) -> (r: Result<(), AutostartError>)
    ensures
        r == (match calls {
            None => Ok::<(), AutostartError>(()),
            Some(c) => if c.open != STATUS_OK {
                Err(AutostartError::CreateKey(c.open))
            } else if c.change == STATUS_OK || (!enabled && c.change == STATUS_NOT_FOUND) {
                Ok(())
            } else if enabled {
                Err(AutostartError::SetValue(c.change))
            } else {
                Err(AutostartError::DeleteValue(c.change))
            },
        }),
{
    match calls {
        None => Ok(()),
        Some(c) => {
            if c.open != STATUS_OK {
                return Err(AutostartError::CreateKey(c.open));
            }
            if enabled {
                if c.change == STATUS_OK {
                    Ok(())
                } else {
                    Err(AutostartError::SetValue(c.change))
                }
            } else if c.change == STATUS_OK || c.change == STATUS_NOT_FOUND {
                Ok(())
            } else {
                Err(AutostartError::DeleteValue(c.change))
            }
        },
    }
}

/// Whether the value currently exists under the Run key, by the status of
/// reading it. Any error reads as `false` rather than propagating — this only
/// drives a checkbox's initial state — and so does a platform without a
/// registry.
pub fn autostart_enabled(read: Option<u32>) -> (r: bool)
    ensures
        r == (read == Some(STATUS_OK)),
{
    match read {
        Some(status) => status == STATUS_OK,
        None => false,
    }
}

/// A quoted path stays one token as long as it holds no quote itself: the only
/// quotes of the command are its first and its last character.
pub proof fn law_a_quoted_path_is_one_token(path: Seq<char>, i: int)
    requires
        !path.contains('"'),
        0 <= i < path.len() + 2,
    ensures
        ({
            let command = seq!['"'] + path + seq!['"'];
            command[i] == '"' <==> i == 0 || i == command.len() - 1
        }),
{
    let command = seq!['"'] + path + seq!['"'];
    if 0 < i < command.len() - 1 {
        assert(command[i] == path[i - 1]);
    }
}

/// A text survives its encoding: a character of the basic plane is one unit, its
/// code; any other is a high and a low surrogate that give its code back.
/// Nothing is added or lost between characters.
pub proof fn law_every_character_is_encoded(a: Seq<char>, b: Seq<char>, c: char)
    ensures
        utf16(a + b) == utf16(a) + utf16(b),
        utf16(seq![c]) == utf16_of(c),
        c as int <= 0xffff ==> utf16_of(c).len() == 1 && utf16_of(c)[0] == c as int,
        c as int > 0xffff ==> {
            let units = utf16_of(c);
            &&& units.len() == 2
            &&& 0xd800 <= units[0] <= 0xdbff
            &&& 0xdc00 <= units[1] <= 0xdfff
            &&& 0x1_0000 + (units[0] - 0xd800) * 0x400 + (units[1] - 0xdc00) == c as int
        },
    decreases b.len(),
{
    reveal_with_fuel(utf16, 2);
    assert(seq![c].drop_last() =~= Seq::<char>::empty());
    assert(utf16(seq![c]) =~= utf16_of(c));
    if b.len() == 0 {
        assert(a + b =~= a);
        assert(utf16(a) + utf16(b) =~= utf16(a));
    } else {
        law_every_character_is_encoded(a, b.drop_last(), c);
        assert((a + b).drop_last() =~= a + b.drop_last());
        assert((a + b).last() == b.last());
        assert(utf16(a + b) =~= utf16(a) + utf16(b));
    }
}

/// The registry's bytes give each unit back, low byte first.
pub proof fn law_units_are_stored_low_byte_first(wide: Seq<u16>, i: int)
    requires
        0 <= i < wide.len(),
    ensures
        unit_bytes(wide).len() == 2 * wide.len(),
        unit_bytes(wide)[2 * i] + 256 * unit_bytes(wide)[2 * i + 1] == wide[i],
{
    assert((2 * i) / 2 == i && (2 * i) % 2 == 0);
    assert((2 * i + 1) / 2 == i && (2 * i + 1) % 2 == 1);
}

/// The codes of the system that are told apart: success, a file not found, and a
/// thing that is there already.
pub proof fn law_the_status_codes()
    ensures
        STATUS_OK == 0,
        STATUS_NOT_FOUND == 2,
        STATUS_ALREADY_EXISTS == 183,
{
}

} // verus!
