//! The decisions of anonymous command-usage telemetry.
//!
//! Only the command name, version and OS are recorded.  Events spool to a
//! local file and are flushed now and then by a detached process; all the
//! file, environment and network work is the caller's.  What is decided
//! here: whether telemetry is off, whether an event still fits in the
//! spool, whether a flush is due, and how the install id is written.
use vstd::prelude::*;
use crate::text::{
    chars_contain_seq, chars_eq, chars_of, chars_replace, contains_seq, hex_digit, push_char,
    replace_char,
};

verus! {

/// Flush when the spool reaches this many events.
pub const FLUSH_AFTER_EVENTS: usize = 25;

/// Flush on the first event this many seconds after the last flush.
pub const FLUSH_AFTER_SECS: u64 = 21600;

/// How long a flush may wait on the network.
pub const FLUSH_TIMEOUT_SECS: u64 = 5;

/// Stop recording once the spool holds this many unsent events.
pub const SPOOL_MAX_EVENTS: usize = 500;

/// Minimum seconds between flush attempts.
pub const FLUSH_RETRY_SECS: u64 = 600;

/// What telemetry remembers between runs.
pub struct TelemetryState {
    pub install_id: String,
    pub notice_shown: bool,
    pub last_flush: u64,
    pub last_flush_attempt: u64,
}

impl TelemetryState {
    /// The state of a machine that has never recorded anything.
    pub fn new() -> (r: TelemetryState)
        ensures
            r.install_id@ == Seq::<char>::empty(),
            !r.notice_shown,
            r.last_flush == 0,
            r.last_flush_attempt == 0,
    {
        TelemetryState {
            install_id: String::new(),
            notice_shown: false,
            last_flush: 0,
            last_flush_attempt: 0,
        }
    }
}

/// An environment variable switches a feature off: it is set, not empty
/// and not `0`.
pub open spec fn flag_set(value: Option<Seq<char>>) -> bool {
    match value {
        Some(v) => v.len() > 0 && v != seq!['0'],
        None => false,
    }
}

/// Whether an environment variable with the given value (`None` where it is
/// unset) switches a feature off.
pub fn env_flag_set(value: Option<&str>) -> (r: bool)
    ensures
        r == flag_set(
            match value {
                Some(v) => Some(v@),
                None => None,
            },
        ),
{
    match value {
        None => false,
        Some(v) => {
            let cs = chars_of(v);
            let zero: Vec<char> = vec!['0'];
            assert(zero@ =~= seq!['0']);
            cs.len() > 0 && !chars_eq(cs.as_slice(), zero.as_slice())
        },
    }
}

pub open spec fn release_dir() -> Seq<char> {
    "/target/release/"@
}

pub open spec fn debug_dir() -> Seq<char> {
    "/target/debug/"@
}

/// A binary at `path` was run out of a Cargo `target/` directory.
pub open spec fn in_target_dir(path: Seq<char>) -> bool {
    let p = replace_char(path, '\\', '/');
    contains_seq(p, release_dir()) || contains_seq(p, debug_dir())
}

/// Whether the executable at `path` is a development build run straight
/// out of `target/release/` or `target/debug/` (with `\` read as `/`).
pub fn is_development_exe_path(path: &str) -> (r: bool)
    ensures
        r == in_target_dir(path@),
{
    let p = chars_replace(chars_of(path).as_slice(), '\\', '/');
    let release = chars_of("/target/release/");
    let debug = chars_of("/target/debug/");
    chars_contain_seq(p.as_slice(), release.as_slice()) || chars_contain_seq(p.as_slice(), debug.as_slice())
}

/// Whether telemetry is off: switched off by `SEM_NO_TELEMETRY` or
/// `DO_NOT_TRACK` (their values given), or the binary is a development build.
pub fn telemetry_disabled(no_telemetry: Option<&str>, do_not_track: Option<&str>, development_build: bool) -> (r: bool)
    ensures
        r == (flag_set(
            match no_telemetry {
                Some(v) => Some(v@),
                None => None,
            },
        ) || flag_set(
            match do_not_track {
                Some(v) => Some(v@),
                None => None,
            },
        ) || development_build),
{
    env_flag_set(no_telemetry) || env_flag_set(do_not_track) || development_build
}

/// `a - b`, or zero where `b` is larger.
pub open spec fn sat_sub(a: u64, b: u64) -> int {
    if a >= b {
        a - b
    } else {
        0
    }
}

/// A flush is due: the spool reaches its flush size with this event, or the
/// last flush is long enough ago; and the last attempt is not too recent.
pub open spec fn flush_is_due(event_count: nat, now: u64, last_flush: u64, last_flush_attempt: u64) -> bool {
    (event_count + 1 >= FLUSH_AFTER_EVENTS || sat_sub(now, last_flush) >= FLUSH_AFTER_SECS) && sat_sub(
        now,
        last_flush_attempt,
    ) >= FLUSH_RETRY_SECS
}

/// What recording one event decides.
pub struct RecordDecision {
    /// Print the one-time notice (and save the state with it shown).
    pub show_notice: bool,
    /// Append the event to the spool.
    pub append_event: bool,
    /// Start a flush (and save the attempt time first).
    pub flush: bool,
}

/// What to do when recording an event with `event_count` events already in
/// the spool at time `now`.
pub fn record_decision(state: &TelemetryState, event_count: usize, now: u64) -> (r: RecordDecision)
    ensures
        r.show_notice == !state.notice_shown,
        r.append_event == (event_count < SPOOL_MAX_EVENTS),
        r.flush == flush_is_due(event_count as nat, now, state.last_flush, state.last_flush_attempt),
{
    let since_flush = now.saturating_sub(state.last_flush);
    let since_attempt = now.saturating_sub(state.last_flush_attempt);
    let flush = (event_count >= FLUSH_AFTER_EVENTS - 1 || since_flush >= FLUSH_AFTER_SECS)
        && since_attempt >= FLUSH_RETRY_SECS;
    RecordDecision {
        show_notice: !state.notice_shown,
        append_event: event_count < SPOOL_MAX_EVENTS,
        flush,
    }
}

/// The state after recording: the notice shown, the install id set where
/// it was empty, and the flush attempt time moved to `now` where a flush
/// starts.
pub fn state_after_record(state: TelemetryState, generated_id: String, flush: bool, now: u64) -> (r:
    TelemetryState)
    ensures
        r.install_id@ == (if state.install_id@.len() == 0 {
            generated_id@
        } else {
            state.install_id@
        }),
        r.notice_shown,
        r.last_flush == state.last_flush,
        r.last_flush_attempt == (if flush {
            now
        } else {
            state.last_flush_attempt
        }),
{
    let empty = chars_of(state.install_id.as_str()).len() == 0;
    TelemetryState {
        install_id: if empty {
            generated_id
        } else {
            state.install_id
        },
        notice_shown: true,
        last_flush: state.last_flush,
        last_flush_attempt: if flush {
            now
        } else {
            state.last_flush_attempt
        },
    }
}

/// The state after a flush that sent its events (`sent`) or failed.
pub fn state_after_flush(state: TelemetryState, sent: bool, now: u64) -> (r: TelemetryState)
    ensures
        r.install_id == state.install_id,
        r.notice_shown == state.notice_shown,
        r.last_flush == (if sent {
            now
        } else {
            state.last_flush
        }),
        r.last_flush_attempt == state.last_flush_attempt,
{
    TelemetryState {
        install_id: state.install_id,
        notice_shown: state.notice_shown,
        last_flush: if sent {
            now
        } else {
            state.last_flush
        },
        last_flush_attempt: state.last_flush_attempt,
    }
}

/// The last `n` hexadecimal digits of `x`, most significant first.
pub open spec fn hex_digits(x: nat, n: nat) -> Seq<char>
    decreases n,
{
    if n == 0 {
        Seq::empty()
    } else {
        hex_digits(x / 16, (n - 1) as nat).push(hex_digit(x % 16))
    }
}

fn hex_digit_char(d: u64) -> (r: char)
    requires
        d < 16,
    ensures
        r == hex_digit(d as nat),
{
    let b: u8 = if d < 10 {
        (d + 48) as u8
    } else {
        (d + 87) as u8
    };
    b as char
}

fn push_hex(x: u64, n: usize, out: &mut String)
    ensures
        final(out)@ == old(out)@ + hex_digits(x as nat, n as nat),
    decreases n,
{
    if n == 0 {
        assert(old(out)@ + hex_digits(x as nat, 0) =~= old(out)@);
        return;
    }
    push_hex(x / 16, n - 1, out);
    push_char(out, hex_digit_char(x % 16));
    assert(hex_digits(x as nat, n as nat) == hex_digits((x / 16) as nat, (n - 1) as nat).push(
        hex_digit((x % 16) as nat),
    ));
}

/// The install id written from two hash values: each as sixteen lower-case
/// hexadecimal digits, zero-padded.
pub fn install_id_from_hashes(a: u64, b: u64) -> (r: String)
    ensures
        r@ == hex_digits(a as nat, 16) + hex_digits(b as nat, 16),
{
    let mut out = String::new();
    push_hex(a, 16, &mut out);
    push_hex(b, 16, &mut out);
    assert(out@ =~= hex_digits(a as nat, 16) + hex_digits(b as nat, 16));
    out
}

// ------------------------------------------------------------------
// The spool: one JSON event per line
// ------------------------------------------------------------------

/// The end of the line that starts at `i` of `s`: the position of the
/// first `\n` at or after `i`, or the length of `s`.
pub open spec fn line_end(s: Seq<char>, i: int) -> int
    decreases s.len() - i,
{
    if i >= s.len() || s[i] == '\n' {
        i
    } else {
        line_end(s, i + 1)
    }
}

/// A line without the `\r` of a `\r\n` ending.
pub open spec fn strip_cr(l: Seq<char>) -> Seq<char> {
    if l.len() > 0 && l.last() == '\r' {
        l.drop_last()
    } else {
        l
    }
}

/// The line that starts at `i` ends within `s`, at a `\n` where it ends
/// before the end of `s`, and holds no `\n`.
pub proof fn lemma_line_end_bounds(s: Seq<char>, i: int)
    requires
        0 <= i <= s.len(),
    ensures
        i <= line_end(s, i) <= s.len(),
        line_end(s, i) < s.len() ==> s[line_end(s, i)] == '\n',
        forall|k: int| i <= k < line_end(s, i) ==> s[k] != '\n',
    decreases s.len() - i,
{
    if i < s.len() && s[i] != '\n' {
        lemma_line_end_bounds(s, i + 1);
    }
}

proof fn lemma_line_end_scan(s: Seq<char>, start: int, i: int)
    requires
        0 <= start <= i <= s.len(),
        forall|k: int| start <= k < i ==> s[k] != '\n',
    ensures
        line_end(s, start) == line_end(s, i),
    decreases i - start,
{
    if start < i {
        lemma_line_end_scan(s, start + 1, i);
    }
}

/// The lines of `s` from position `start` on, as `str::lines` gives them:
/// split at each `\n`, a `\r` just before it dropped, and no empty line
/// after a final `\n`.
pub open spec fn lines_from(s: Seq<char>, start: int) -> Seq<Seq<char>>
    decreases s.len() - start,
{
    if start < 0 || start >= s.len() {
        Seq::empty()
    } else {
        let e = line_end(s, start);
        proof {
            lemma_line_end_bounds(s, start);
        }
        if e < s.len() {
            seq![strip_cr(s.subrange(start, e))] + lines_from(s, e + 1)
        } else {
            seq![s.subrange(start, s.len() as int)]
        }
    }
}

/// The lines of a text, as `str::lines` gives them.
pub open spec fn text_lines(s: Seq<char>) -> Seq<Seq<char>> {
    lines_from(s, 0)
}

/// The text of `cs[lo..hi]`.
fn string_of_range(cs: &[char], lo: usize, hi: usize) -> (r: String)
    requires
        lo <= hi <= cs.len(),
    ensures
        r@ == cs@.subrange(lo as int, hi as int),
{
    let mut out = String::new();
    let mut i = lo;
    while i < hi
        invariant
            lo <= i <= hi <= cs.len(),
            out@ == cs@.subrange(lo as int, i as int),
        decreases hi - i,
    {
        push_char(&mut out, cs[i]);
        assert(cs@.subrange(lo as int, i + 1) =~= cs@.subrange(lo as int, i as int).push(cs@[i as int]));
        i = i + 1;
    }
    out
}

/// The lines of the spool file `content`, as `str::lines` gives them.
pub fn spool_lines(content: &str) -> (r: Vec<String>)
    ensures
        r@.map_values(|l: String| l@) == text_lines(content@),
{
    let cs = chars_of(content);
    let n = cs.len();
    let mut out: Vec<String> = Vec::new();
    let mut start: usize = 0;
    let mut i: usize = 0;
    assert(out@.map_values(|l: String| l@) + lines_from(cs@, 0) =~= lines_from(cs@, 0));
    while i < n
        invariant
            cs@ == content@,
            n == cs.len(),
            start <= i <= n,
            forall|k: int| start <= k < i ==> cs@[k] != '\n',
            out@.map_values(|l: String| l@) + lines_from(cs@, start as int) == lines_from(cs@, 0),
        decreases n - i,
    {
        if cs[i] == '\n' {
            proof {
                lemma_line_end_scan(cs@, start as int, i as int);
            }
            let e = if i > start && cs[i - 1] == '\r' {
                i - 1
            } else {
                i
            };
            let line = string_of_range(cs.as_slice(), start, e);
            assert(line@ == strip_cr(cs@.subrange(start as int, i as int))) by {
                if i > start && cs@[i - 1] == '\r' {
                    assert(cs@.subrange(start as int, i as int).drop_last() =~= cs@.subrange(
                        start as int,
                        i - 1,
                    ));
                }
            }
            let ghost before = out@;
            out.push(line);
            assert(out@.map_values(|l: String| l@) =~= before.map_values(|l: String| l@).push(line@));
            assert(lines_from(cs@, start as int) == seq![line@] + lines_from(cs@, i + 1));
            assert(out@.map_values(|l: String| l@) + lines_from(cs@, i + 1) =~= before.map_values(
                |l: String| l@,
            ) + lines_from(cs@, start as int));
            start = i + 1;
        }
        i = i + 1;
    }
    proof {
        lemma_line_end_scan(cs@, start as int, n as int);
    }
    if start < n {
        let line = string_of_range(cs.as_slice(), start, n);
        let ghost before = out@;
        out.push(line);
        assert(out@.map_values(|l: String| l@) =~= before.map_values(|l: String| l@).push(line@));
        assert(lines_from(cs@, start as int) == seq![line@]);
        assert(out@.map_values(|l: String| l@) =~= before.map_values(|l: String| l@) + lines_from(
            cs@,
            start as int,
        ));
    } else {
        assert(out@.map_values(|l: String| l@) =~= out@.map_values(|l: String| l@) + lines_from(
            cs@,
            start as int,
        ));
    }
    out
}

/// The number of events in the spool file `content`: its line count.
pub fn spool_event_count(content: &str) -> (r: usize)
    ensures
        r == text_lines(content@).len(),
{
    let lines = spool_lines(content);
    assert(lines@.map_values(|l: String| l@).len() == lines@.len());
    lines.len()
}

/// Whether `line` is one JSON value, as `serde_json` reads it.
pub uninterp spec fn parses_as_json(line: Seq<char>) -> bool;

/// Calls `serde_json::from_str::<serde_json::Value>` on `line` and tells
/// whether it succeeded.  Claimed: the answer depends on the text of `line`
/// alone.  What `serde_json` accepts is not restated here.
#[verifier::external_body]
fn is_json_value(line: &str) -> (r: bool)
    ensures
        r == parses_as_json(line@),
{
    serde_json::from_str::<serde_json::Value>(line).is_ok()
}

/// The events of the spool file `content` that a flush sends: its lines
/// that are JSON values, in order.
pub fn spool_events(content: &str) -> (r: Vec<String>)
    ensures
        r@.map_values(|l: String| l@) == text_lines(content@).filter(|l: Seq<char>| parses_as_json(l)),
{
    let lines = spool_lines(content);
    let ghost ls = lines@.map_values(|l: String| l@);
    let mut out: Vec<String> = Vec::new();
    let mut i: usize = 0;
    proof {
        reveal(Seq::filter);
        assert(ls.take(0) =~= Seq::<Seq<char>>::empty());
        assert(out@.map_values(|l: String| l@) =~= ls.take(0).filter(|l: Seq<char>| parses_as_json(l)));
    }
    while i < lines.len()
        invariant
            i <= lines.len(),
            ls == lines@.map_values(|l: String| l@),
            out@.map_values(|l: String| l@) == ls.take(i as int).filter(|l: Seq<char>| parses_as_json(l)),
        decreases lines.len() - i,
    {
        let ghost before = out@;
        let keep = is_json_value(lines[i].as_str());
        proof {
            reveal(Seq::filter);
            assert(ls.take(i + 1).drop_last() =~= ls.take(i as int));
            assert(ls.take(i + 1).last() == lines@[i as int]@);
        }
        if keep {
            out.push(lines[i].clone());
            assert(out@.map_values(|l: String| l@) =~= before.map_values(|l: String| l@).push(lines@[i as int]@));
        }
        i = i + 1;
    }
    assert(ls.take(lines.len() as int) =~= ls);
    out
}

/// When a flush is due: never within `FLUSH_RETRY_SECS` of the last
/// attempt; past that, as soon as the spool reaches `FLUSH_AFTER_EVENTS`
/// events with this one, or `FLUSH_AFTER_SECS` after the last flush.  More
/// events in the spool never make a due flush undue, nor does a later
/// clock.
pub proof fn law_flush_due_by_size_or_age(
    event_count: nat,
    more_events: nat,
    now: u64,
    later: u64,
    last_flush: u64,
    last_flush_attempt: u64,
)
    requires
        event_count <= more_events,
        now <= later,
    ensures
        event_count + 1 >= FLUSH_AFTER_EVENTS && now >= last_flush_attempt + FLUSH_RETRY_SECS
            ==> flush_is_due(event_count, now, last_flush, last_flush_attempt),
        now >= last_flush + FLUSH_AFTER_SECS && now >= last_flush_attempt + FLUSH_RETRY_SECS
            ==> flush_is_due(event_count, now, last_flush, last_flush_attempt),
        flush_is_due(event_count, now, last_flush, last_flush_attempt) ==> now >= last_flush_attempt
            + FLUSH_RETRY_SECS,
        flush_is_due(event_count, now, last_flush, last_flush_attempt) && event_count + 1 < FLUSH_AFTER_EVENTS
            ==> now >= last_flush + FLUSH_AFTER_SECS,
        flush_is_due(event_count, now, last_flush, last_flush_attempt) ==> flush_is_due(
            more_events,
            now,
            last_flush,
            last_flush_attempt,
        ),
        flush_is_due(event_count, now, last_flush, last_flush_attempt) ==> flush_is_due(
            event_count,
            later,
            last_flush,
            last_flush_attempt,
        ),
{
}

/// Attempts are throttled: right after an attempt at `now` is recorded, no
/// further flush is due before `FLUSH_RETRY_SECS` have passed.
pub proof fn law_flush_attempts_are_throttled(event_count: nat, now: u64, later: u64, last_flush: u64)
    requires
        now <= later,
        later - now < FLUSH_RETRY_SECS,
    ensures
        !flush_is_due(event_count, later, last_flush, now),
{
}

} // verus!
