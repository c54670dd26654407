//! What kind of failure a tool result reports, and whether the calls of a
//! conversation make progress.
use std::collections::hash_map::DefaultHasher;
use std::collections::HashSet;
use std::hash::Hasher;
use vstd::prelude::*;
use vstd::std_specs::hash::*;
use vstd::utf8::*;
use crate::decimal::{dec_i32, dec_u64, read_unsigned};
use crate::decimal::{dec, dec_int, parse_unsigned};
use crate::failures::calls::{assistant_calls, call_count, keys_of_calls, CallKey};
use crate::keyed::KeyedList;
use crate::keyed::{counts, times};
use crate::messages::IncomingMessage;
use crate::messages::{incoming_views, message_views, MessageView};
use crate::text::{begins, chars_of, has, same_chars, string_of_all, CharSet};
use crate::text::{contains, opt_str, same, starts_with, views};
use crate::tool_args::primary_arg_for_tool;
use crate::tools::opt_view;
use crate::tools::CallView;
use crate::trim::{char_views, join_strings, lines_of, trim_chars, trim_end_chars};
use crate::trim::{join, lines, trim, trim_end};

verus! {

// ---------------------------------------------------------------------------
// Kinds of failure
// ---------------------------------------------------------------------------
/// Why a call failed, where it can be told from the text of the result.
#[derive(Debug, Clone, Copy, PartialEq, Eq, Structural)]
pub enum F37FailureClass {
    /// The command is not installed.
    BinaryMissing,
    /// What was to be made is there.
    AlreadyExists,
    /// The permission is missing.
    PermissionDenied,
    /// The file or directory is missing.
    NotFound,
    /// The arguments are wrong.
    InvalidArgument,
    /// The call was refused here.
    StallGuard,
}

/// The failure that a text reports. The first that applies counts.
pub open spec fn failure_class(t: Seq<char>) -> Option<F37FailureClass> {
    if contains(t, "[atlas-stall-guard]"@) || contains(t, "[atlas-permanent-failure]"@) {
        Some(F37FailureClass::StallGuard)
    } else if contains(t, "command not found"@) || contains(t, ": not found"@) || contains(
        t,
        "Exit code 127"@,
    ) {
        Some(F37FailureClass::BinaryMissing)
    } else if contains(t, "already exists"@) || contains(t, "cannot be run on existing"@) || (
    contains(t, "destination"@) && contains(t, "exists"@)) {
        Some(F37FailureClass::AlreadyExists)
    } else if contains(t, "Permission denied"@) || contains(t, "EACCES"@) {
        Some(F37FailureClass::PermissionDenied)
    } else if contains(t, "No such file or directory"@) || contains(t, "ENOENT"@) || contains(
        t,
        "cannot access"@,
    ) {
        Some(F37FailureClass::NotFound)
    } else if contains(t, "TypeError"@) || contains(t, "ERR_INVALID_ARG_VALUE"@) || contains(
        t,
        "before overwriting it"@,
    ) {
        Some(F37FailureClass::InvalidArgument)
    } else {
        None
    }
}

/// Computes [`failure_class`].
pub fn f37_classify_failure(t: &str) -> (r: Option<F37FailureClass>)
    ensures
        r == failure_class(t@),
{
    if has(t, "[atlas-stall-guard]") || has(t, "[atlas-permanent-failure]") {
        return Some(F37FailureClass::StallGuard);
    }
    if has(t, "command not found") || has(t, ": not found") || has(t, "Exit code 127") {
        return Some(F37FailureClass::BinaryMissing);
    }
    if has(t, "already exists") || has(t, "cannot be run on existing") || (has(t, "destination")
        && has(t, "exists")) {
        return Some(F37FailureClass::AlreadyExists);
    }
    if has(t, "Permission denied") || has(t, "EACCES") {
        return Some(F37FailureClass::PermissionDenied);
    }
    if has(t, "No such file or directory") || has(t, "ENOENT") || has(t, "cannot access") {
        return Some(F37FailureClass::NotFound);
    }
    if has(t, "TypeError") || has(t, "ERR_INVALID_ARG_VALUE") || has(t, "before overwriting it") {
        return Some(F37FailureClass::InvalidArgument);
    }
    None
}

// ---------------------------------------------------------------------------
// Hashes of results
// ---------------------------------------------------------------------------
/// A text with the white space at the end of each line removed.
pub open spec fn normalized(content: Seq<char>) -> Seq<char> {
    join(lines(content).map_values(|l: Seq<char>| trim_end(l, CharSet::White)), "\n"@)
}

/// The hash of a normalized text.
pub open spec fn content_hash(content: Seq<char>) -> u64 {
    DefaultHasher::spec_finish(seq![encode_utf8(normalized(content))])
}

/// Computes [`normalized`].
pub fn normalize(content: &str) -> (r: String)
    ensures
        r@ == normalized(content@),
{
    let ls = lines_of(&chars_of(content));
    let ghost lv = lines(content@);
    let ghost tv = lv.map_values(|l: Seq<char>| trim_end(l, CharSet::White));
    let mut cleaned: Vec<String> = Vec::new();
    let mut i: usize = 0;
    while i < ls.len()
        invariant
            i <= ls@.len(),
            lv == char_views(ls@),
            tv == lv.map_values(|l: Seq<char>| trim_end(l, CharSet::White)),
            views(cleaned@) == tv.take(i as int),
        decreases ls@.len() - i,
    {
        let s = string_of_all(&trim_end_chars(&ls[i], CharSet::White));
        let ghost sv = s@;
        let ghost before = cleaned@;
        assert(lv[i as int] == ls@[i as int]@);
        cleaned.push(s);
        assert(views(cleaned@) =~= views(before).push(sv));
        i += 1;
        assert(views(cleaned@) =~= tv.take(i as int));
    }
    assert(tv.take(i as int) =~= tv);
    join_strings(&cleaned, "\n")
}

/// Hashes a text, whatever white space ends its lines.
pub fn f23_normalize_and_hash(content: &str) -> (r: u64)
    ensures
        r == content_hash(content@),
{
    let cleaned = normalize(content);
    let mut h = DefaultHasher::new();
    h.write(cleaned.as_str().as_bytes());
    assert(h@ =~= seq![encode_utf8(normalized(content@))]);
    h.finish()
}

/// Texts that differ only in the white space that ends their lines have the
/// same hash.
pub proof fn law_hash_ignores_line_ends(a: Seq<char>, b: Seq<char>)
    requires
        lines(a).len() == lines(b).len(),
        forall|i: int|
            0 <= i < lines(a).len() ==> trim_end(#[trigger] lines(a)[i], CharSet::White)
                == trim_end(lines(b)[i], CharSet::White),
    ensures
        content_hash(a) == content_hash(b),
{
    assert(lines(a).map_values(|l: Seq<char>| trim_end(l, CharSet::White)) =~= lines(
        b,
    ).map_values(|l: Seq<char>| trim_end(l, CharSet::White)));
}

// ---------------------------------------------------------------------------
// Progress
// ---------------------------------------------------------------------------
/// From how many calls without progress on the model is warned, by default.
pub const F23_WARN_ATTEMPTS_DEFAULT: u32 = 4;

/// From how many calls without progress on the model is told to stop, by
/// default.
pub const F23_REFUSE_ATTEMPTS_DEFAULT: u32 = 6;

/// How a conversation fares.
#[derive(Debug, Clone, Copy, PartialEq, Eq, Structural)]
pub struct F23ProgressMetrics {
    /// Novel results less failures and repetitions.
    pub score: i32,
    /// The number of calls.
    pub attempts: u32,
}

/// What is known of a conversation after some of its messages.
#[verifier::ext_equal]
pub struct Progress {
    /// The score.
    pub score: int,
    /// The calls, in order.
    pub calls: Seq<CallKey>,
    /// The hashes of the results that were no errors.
    pub hashes: Set<u64>,
    /// The hash of the last trivial result of a call.
    pub trivial: Map<CallKey, u64>,
    /// The call that waits for its result.
    pub pending: Option<CallKey>,
}

/// Before the first message.
pub open spec fn no_progress() -> Progress {
    Progress {
        score: 0,
        calls: Seq::empty(),
        hashes: Set::empty(),
        trivial: Map::empty(),
        pending: None,
    }
}

/// A score, as far as 32 bits hold it.
pub open spec fn bounded(n: int) -> int {
    if n < i32::MIN {
        i32::MIN as int
    } else if n > i32::MAX {
        i32::MAX as int
    } else {
        n
    }
}

/// After one call. A call that was made before costs a point.
pub open spec fn after_call(p: Progress, key: CallKey) -> Progress {
    Progress {
        score: if times(p.calls, key) > 0 {
            bounded(p.score - 1)
        } else {
            p.score
        },
        calls: p.calls.push(key),
        pending: Some(key),
        ..p
    }
}

/// After some calls.
pub open spec fn after_calls(p: Progress, keys: Seq<CallKey>) -> Progress
    decreases keys.len(),
{
    if keys.len() == 0 {
        p
    } else {
        after_call(after_calls(p, keys.drop_last()), keys.last())
    }
}

/// Whether a result is an error beyond doubt.
pub open spec fn is_hard_error(t: Seq<char>) -> bool {
    ||| starts_with(t, "[tool error]"@)
    ||| contains(t, "Exit code 127"@)
    ||| contains(t, "command not found"@)
    ||| contains(t, "Permission denied"@)
    ||| contains(t, "ENOENT"@)
    ||| contains(t, "EISDIR"@)
}

/// Whether a result says only that the call succeeded.
pub open spec fn is_trivial(t: Seq<char>) -> bool {
    let s = trim(t, CharSet::White);
    s.len() == 0 || s == "Done"@ || s == "OK"@
}

/// After a result. An error costs a point, and so does a result that was there
/// before. A trivial result is free, unless the same call, made at least three
/// times, had the same trivial result before: that costs two. Any other result
/// earns a point.
pub open spec fn after_result(p: Progress, text: Seq<char>) -> Progress {
    if is_hard_error(text) {
        Progress { score: bounded(p.score - 1), pending: None, ..p }
    } else {
        let h = content_hash(text);
        let q = Progress { hashes: p.hashes.insert(h), ..p };
        if is_trivial(text) {
            match p.pending {
                Some(k) => Progress {
                    score: if p.trivial.contains_key(k) && p.trivial[k] == h && times(p.calls, k)
                        >= 3 {
                        bounded(p.score - 2)
                    } else {
                        p.score
                    },
                    trivial: p.trivial.insert(k, h),
                    pending: None,
                    ..q
                },
                None => q,
            }
        } else if p.hashes.contains(h) {
            Progress { score: bounded(p.score - 1), pending: None, ..q }
        } else {
            Progress { score: bounded(p.score + 1), pending: None, ..q }
        }
    }
}

/// After a message.
pub open spec fn after_message(p: Progress, m: MessageView) -> Progress {
    let q = after_calls(p, keys_of_calls(assistant_calls(m)));
    if m.role == "tool"@ {
        after_result(q, m.text)
    } else {
        q
    }
}

/// After some messages.
pub open spec fn progress(msgs: Seq<MessageView>) -> Progress
    decreases msgs.len(),
{
    if msgs.len() == 0 {
        no_progress()
    } else {
        after_message(progress(msgs.drop_last()), msgs.last())
    }
}

/// A copy of a call's key.
pub(crate) fn copy_key(k: &(String, String)) -> (r: (String, String))
    ensures
        r@ == k@,
{
    (k.0.clone(), k.1.clone())
}

/// The progress of a conversation, kept while its messages are read.
struct Tally {
    score: i32,
    calls: KeyedList<(String, String), u32>,
    hashes: HashSet<u64>,
    trivial: KeyedList<(String, String), u64>,
    pending: Option<(String, String)>,
}

impl Tally {
    /// Whether this stands for `p`.
    spec fn is(self, p: Progress) -> bool {
        &&& self.calls.wf()
        &&& self.trivial.wf()
        &&& self.score == p.score
        &&& counts(self.calls@, p.calls)
        &&& self.hashes@ == p.hashes
        &&& self.trivial@ == p.trivial
        &&& match self.pending {
            Some(k) => p.pending == Some(k@),
            None => p.pending is None,
        }
    }

    /// Takes points off.
    fn cost(&mut self, n: i32)
        requires
            0 <= n,
        ensures
            *final(self) == (Tally { score: final(self).score, ..*old(self) }),
            final(self).score == bounded(old(self).score - n),
    {
        self.score = if self.score >= i32::MIN + n {
            self.score - n
        } else {
            i32::MIN
        };
    }

    /// Adds a point.
    fn earn(&mut self)
        ensures
            *final(self) == (Tally { score: final(self).score, ..*old(self) }),
            final(self).score == bounded(old(self).score + 1),
    {
        if self.score < i32::MAX {
            self.score = self.score + 1;
        }
    }

    /// Reads the calls of an assistant message.
    fn note_calls(
        &mut self,
        calls: &Vec<crate::tools::IncomingToolCall>,
        Ghost(p): Ghost<Progress>,
    )
        requires
            old(self).is(p),
        ensures
            final(self).is(after_calls(p, keys_of_calls(incoming_views(calls@)))),
    {
        let ghost cv = incoming_views(calls@);
        let mut j: usize = 0;
        assert(cv.take(0) =~= Seq::<CallView>::empty());
        while j < calls.len()
            invariant
                j <= calls@.len(),
                cv == incoming_views(calls@),
                self.is(after_calls(p, keys_of_calls(cv.take(j as int)))),
            decreases calls@.len() - j,
        {
            let call = &calls[j];
            let ghost keys = keys_of_calls(cv.take(j as int));
            let ghost q = after_calls(p, keys);
            proof {
                assert(cv[j as int] == call@);
                assert(cv.take(j + 1).drop_last() =~= cv.take(j as int));
            }
            match primary_arg_for_tool(
                call.function.name.as_str(),
                call.function.arguments.as_str(),
            ) {
                Some(arg) => {
                    let key = (call.function.name.clone(), arg);
                    let ghost kv = key@;
                    let n = self.calls.bump(copy_key(&key), Ghost(q.calls));
                    proof {
                        assert(q.calls.push(kv).drop_last() =~= q.calls);
                        assert(keys.push(kv).drop_last() =~= keys);
                    }
                    if n > 1 {
                        self.cost(1);
                    }
                    self.pending = Some(key);
                },
                None => {},
            }
            j += 1;
        }
        assert(cv.take(j as int) =~= cv);
    }

    /// Reads a result.
    fn note_result(&mut self, text: &str, Ghost(p): Ghost<Progress>)
        requires
            old(self).is(p),
        ensures
            final(self).is(after_result(p, text@)),
    {
        broadcast use group_hash_axioms;

        if begins(text, "[tool error]") || has(text, "Exit code 127") || has(
            text,
            "command not found",
        ) || has(text, "Permission denied") || has(text, "ENOENT") || has(text, "EISDIR") {
            self.cost(1);
            self.pending = None;
            return;
        }
        let h = f23_normalize_and_hash(text);
        let novel = self.hashes.insert(h);
        let stripped = trim_chars(&chars_of(text), CharSet::White);
        let done = chars_of("Done");
        let ok = chars_of("OK");
        if stripped.len() == 0 || same_chars(&stripped, &done) || same_chars(&stripped, &ok) {
            match self.pending.take() {
                Some(key) => {
                    let repeated = match self.trivial.get(&key) {
                        Some(prev) => *prev == h,
                        None => false,
                    };
                    let often = match self.calls.get(&key) {
                        Some(n) => *n >= 3,
                        None => false,
                    };
                    if repeated && often {
                        self.cost(2);
                    }
                    self.trivial.insert(key, h);
                },
                None => {},
            }
            return;
        }
        if novel {
            self.earn();
        } else {
            self.cost(1);
        }
        self.pending = None;
    }
}

/// Scores a conversation: how many calls were made, and how much came of
/// them.
pub fn f23_score_progress(messages: &[IncomingMessage]) -> (r: F23ProgressMetrics)
    ensures
        r.score == progress(message_views(messages@)).score,
        r.attempts == call_count(message_views(messages@)),
{
    let ghost mv = message_views(messages@);
    let mut tally = Tally {
        score: 0,
        calls: KeyedList::new(),
        hashes: HashSet::new(),
        trivial: KeyedList::new(),
        pending: None,
    };
    let mut attempts: u32 = 0;
    let mut i: usize = 0;
    assert(mv.take(0) =~= Seq::<MessageView>::empty());
    while i < messages.len()
        invariant
            i <= messages@.len(),
            mv == message_views(messages@),
            tally.is(progress(mv.take(i as int))),
            attempts == call_count(mv.take(i as int)),
        decreases messages@.len() - i,
    {
        let m = &messages[i];
        let ghost p = progress(mv.take(i as int));
        let ghost calls = assistant_calls(m@);
        proof {
            assert(mv[i as int] == m@);
            assert(mv.take(i + 1).drop_last() =~= mv.take(i as int));
        }
        if same(m.role.as_str(), "assistant") {
            match &m.tool_calls {
                Some(tcs) => {
                    assert(calls == incoming_views(tcs@));
                    let made: u32 =
                        #[verifier::truncate]
                        (tcs.len() as u32);
                    attempts = attempts.saturating_add(made);
                    tally.note_calls(tcs, Ghost(p));
                },
                None => {},
            }
        }
        let ghost q = after_calls(p, keys_of_calls(calls));
        assert(tally.is(q));
        if same(m.role.as_str(), "tool") {
            tally.note_result(m.content.text.as_str(), Ghost(q));
        }
        i += 1;
    }
    assert(mv.take(i as int) =~= mv);
    F23ProgressMetrics { score: tally.score, attempts }
}

/// The number that a setting gives, or the default.
pub open spec fn setting(value: Option<Seq<char>>, default: u32) -> u32 {
    match value {
        Some(s) => match parse_unsigned(s, u32::MAX as nat) {
            Some(n) => n as u32,
            None => default,
        },
        None => default,
    }
}

/// Computes [`setting`].
fn read_setting(value: Option<&str>, default: u32) -> (r: u32)
    ensures
        r == setting(opt_str(value), default),
{
    match value {
        Some(s) => match read_unsigned(&chars_of(s), u32::MAX as u64) {
            Some(n) => n as u32,
            None => default,
        },
        None => default,
    }
}

/// From how many calls on the model is warned. `value` is what
/// `ATLAS_F23_WARN_ATTEMPTS` is set to.
pub fn f23_warn_threshold(value: Option<&str>) -> (r: u32)
    ensures
        r == setting(opt_str(value), F23_WARN_ATTEMPTS_DEFAULT),
{
    read_setting(value, F23_WARN_ATTEMPTS_DEFAULT)
}

/// From how many calls on the model is told to stop. `value` is what
/// `ATLAS_F23_REFUSE_ATTEMPTS` is set to.
pub fn f23_refuse_threshold(value: Option<&str>) -> (r: u32)
    ensures
        r == setting(opt_str(value), F23_REFUSE_ATTEMPTS_DEFAULT),
{
    read_setting(value, F23_REFUSE_ATTEMPTS_DEFAULT)
}

/// The reminder for a conversation that fares like this.
pub open spec fn progress_reminder(
    metrics: F23ProgressMetrics,
    warn: u32,
    refuse: u32,
) -> Option<Seq<char>> {
    let head = "\n\n<system-reminder>\n[F23 STALL] You have called "@ + dec(
        metrics.attempts as nat,
    ) + " tools without making progress (progress_score="@ + dec_int(metrics.score as int);
    if metrics.attempts >= refuse && metrics.score <= 0 {
        Some(
            head
                + "). STOP. Do NOT call any more tools. Reply to the user with a plain-text explanation of what is blocking and what you need from them. Subsequent tool calls will be refused.\n</system-reminder>"@,
        )
    } else if metrics.attempts >= warn && metrics.score <= 0 {
        Some(
            head
                + "). The retries are not advancing the task. Stop and explain to the user what is blocking. Do not retry the same approach.\n</system-reminder>"@,
        )
    } else {
        None
    }
}

/// Computes [`progress_reminder`].
pub fn f23_build_reminder(metrics: F23ProgressMetrics, warn: u32, refuse: u32) -> (r: Option<
    String,
>)
    ensures
        opt_view(r) == progress_reminder(metrics, warn, refuse),
{
    let mut s = "\n\n<system-reminder>\n[F23 STALL] You have called ".to_owned();
    s.append(dec_u64(metrics.attempts as u64).as_str());
    s.append(" tools without making progress (progress_score=");
    s.append(dec_i32(metrics.score).as_str());
    if metrics.attempts >= refuse && metrics.score <= 0 {
        s.append(
            "). STOP. Do NOT call any more tools. Reply to the user with a plain-text explanation of what is blocking and what you need from them. Subsequent tool calls will be refused.\n</system-reminder>",
        );
        Some(s)
    } else if metrics.attempts >= warn && metrics.score <= 0 {
        s.append(
            "). The retries are not advancing the task. Stop and explain to the user what is blocking. Do not retry the same approach.\n</system-reminder>",
        );
        Some(s)
    } else {
        None
    }
}

} // verus!
