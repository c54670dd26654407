//! Calls that failed for good.
//!
//! A call is known by its tool and its main argument. Where a result says that
//! a call failed for a lasting reason, the call is remembered; and where the
//! reason is a missing command, so is the command.
use vstd::prelude::*;
use crate::failures::calls::{assistant_calls, keys_of_calls, CallKey};
use crate::failures::classification::{copy_key, f37_classify_failure, F37FailureClass};
use crate::failures::classification::failure_class;
use crate::failures::notice::count_times;
use crate::failures::notice::times_text;
use crate::failures::stall::find_last;
use crate::failures::stall::last_with_role;
use crate::keyed::{count_on, KeyedList};
use crate::keyed::{capped, times};
use crate::messages::IncomingMessage;
use crate::messages::{incoming_views, message_views, MessageView};
use crate::text::{chars_of, find_chars, own, same, stands_at, string_of_all, CharSet};
use crate::text::{find, lemma_find_from, starts_with, views};
use crate::tool_args::{classify_tool, primary_arg_for_tool, ToolKind};
use crate::tool_args::{kind_of, primary_arg};
use crate::tools::opt_view;
use crate::tools::{CallView, IncomingToolCall};
use crate::trim::{first_word_of, join_strings, part, trim_start_chars};
use crate::trim::{first_word, join, lemma_lead, trim_start};

verus! {

// ---------------------------------------------------------------------------
// The failures of a conversation
// ---------------------------------------------------------------------------
/// Whether a command only changes the directory, before anything else.
pub open spec fn enters_directory(s: Seq<char>) -> bool {
    starts_with(s, "cd "@) || starts_with(s, "cd\t"@)
}

/// A command without the changes of directory, `cd ... &&`, at its beginning.
pub open spec fn past_directories(s: Seq<char>) -> Seq<char>
    decreases s.len(),
    via past_directories_decreases
{
    let t = trim_start(s, CharSet::White);
    match find(t, "&&"@) {
        Some(i) => if enters_directory(t) {
            past_directories(t.skip(i + 2))
        } else {
            t
        },
        None => t,
    }
}

#[via_fn]
proof fn past_directories_decreases(s: Seq<char>) {
    let t = trim_start(s, CharSet::White);
    lemma_lead(s, CharSet::White, 0);
    lemma_find_from(t, "&&"@, 0);
    reveal_strlit("&&");
}

/// Computes [`past_directories`].
fn skip_directories(v: &Vec<char>) -> (r: Vec<char>)
    ensures
        r@ == past_directories(v@),
    decreases v@.len(),
{
    let t = trim_start_chars(v, CharSet::White);
    let and = chars_of("&&");
    let space = chars_of("cd ");
    let tab = chars_of("cd\t");
    proof {
        lemma_lead(v@, CharSet::White, 0);
        lemma_find_from(t@, "&&"@, 0);
        reveal_strlit("&&");
        reveal_strlit("cd ");
        reveal_strlit("cd\t");
    }
    if !stands_at(&t, &space, 0) && !stands_at(&t, &tab, 0) {
        return t;
    }
    match find_chars(&t, &and, 0) {
        Some(i) => {
            let rest = part(&t, i + 2, t.len());
            assert(rest@ =~= t@.skip(i + 2));
            skip_directories(&rest)
        },
        None => t,
    }
}

/// The command that a call runs: the first word of a shell call's action,
/// changes of directory before it aside.
pub open spec fn binary_name(tool: Seq<char>, arg: Seq<char>) -> Option<Seq<char>> {
    if kind_of(tool) == ToolKind::Bash {
        first_word(past_directories(arg))
    } else {
        None
    }
}

/// Computes [`binary_name`].
pub fn f39_extract_binary_name(tool: &str, primary_arg: &str) -> (r: Option<String>)
    ensures
        opt_view(r) == binary_name(tool@, primary_arg@),
{
    match classify_tool(tool) {
        ToolKind::Bash => match first_word_of(&skip_directories(&chars_of(primary_arg))) {
            Some(w) => Some(string_of_all(&w)),
            None => None,
        },
        _ => None,
    }
}

/// A call that failed, and why.
pub type Failure = (CallKey, F37FailureClass);

/// What is known of a conversation after some of its messages.
pub struct History {
    /// The calls without a result, by identifier.
    pub pending: Map<Seq<char>, CallKey>,
    /// The failures, in order.
    pub failures: Seq<Failure>,
}

/// After one call. One without an identifier or a main argument is left out.
pub open spec fn history_call(h: History, c: CallView) -> History {
    match (c.id, primary_arg(c.name, c.arguments)) {
        (Some(id), Some(arg)) => if id.len() > 0 {
            History { pending: h.pending.insert(id, (c.name, arg)), ..h }
        } else {
            h
        },
        _ => h,
    }
}

/// After some calls.
pub open spec fn history_calls(h: History, calls: Seq<CallView>) -> History
    decreases calls.len(),
{
    if calls.len() == 0 {
        h
    } else {
        history_call(history_calls(h, calls.drop_last()), calls.last())
    }
}

/// After the result of the call with this identifier.
pub open spec fn history_result(h: History, id: Option<Seq<char>>, text: Seq<char>) -> History {
    match id {
        Some(id) => if h.pending.contains_key(id) {
            History {
                pending: h.pending.remove(id),
                failures: match failure_class(text) {
                    Some(class) => h.failures.push((h.pending[id], class)),
                    None => h.failures,
                },
            }
        } else {
            h
        },
        None => h,
    }
}

/// After some messages.
pub open spec fn history(msgs: Seq<MessageView>) -> History
    decreases msgs.len(),
{
    if msgs.len() == 0 {
        History { pending: Map::empty(), failures: Seq::empty() }
    } else {
        let h = history(msgs.drop_last());
        let m = msgs.last();
        if m.role == "assistant"@ {
            history_calls(h, assistant_calls(m))
        } else if m.role == "tool"@ {
            history_result(h, m.tool_call_id, m.text)
        } else {
            h
        }
    }
}

/// The calls that failed, one entry for each failure.
pub open spec fn failed_keys(fs: Seq<Failure>) -> Seq<CallKey> {
    fs.map_values(|f: Failure| f.0)
}

/// Why the call failed the last time.
pub open spec fn last_class(fs: Seq<Failure>, key: CallKey) -> F37FailureClass
    decreases fs.len(),
{
    if fs.len() == 0 {
        F37FailureClass::StallGuard
    } else if fs.last().0 == key {
        fs.last().1
    } else {
        last_class(fs.drop_last(), key)
    }
}

/// The commands that were missing, with their tool, one entry for each
/// failure.
pub open spec fn missing_bins(fs: Seq<Failure>) -> Seq<CallKey>
    decreases fs.len(),
{
    if fs.len() == 0 {
        Seq::empty()
    } else {
        let before = missing_bins(fs.drop_last());
        let ((tool, arg), class) = fs.last();
        match binary_name(tool, arg) {
            Some(bin) => if class == F37FailureClass::BinaryMissing {
                before.push((tool, bin))
            } else {
                before
            },
            None => before,
        }
    }
}

// ---------------------------------------------------------------------------
// The cache
// ---------------------------------------------------------------------------
/// The calls that failed for good.
#[derive(Debug)]
pub struct F39FailureCache {
    /// For each call that failed how often it did, and why it did the last
    /// time.
    pub direct: KeyedList<(String, String), (u32, F37FailureClass)>,
    /// For each tool and command how often the command was missing.
    pub missing_bins_by_tool: KeyedList<(String, String), u32>,
}

impl F39FailureCache {
    /// Each call and each command is listed once.
    pub open spec fn wf(self) -> bool {
        self.direct.wf() && self.missing_bins_by_tool.wf()
    }

    /// Whether the cache holds these failures.
    pub open spec fn holds(self, fs: Seq<Failure>) -> bool {
        &&& forall|k: CallKey| #[trigger]
            self.direct@.contains_key(k) <==> times(failed_keys(fs), k) > 0
        &&& forall|k: CallKey|
            self.direct@.contains_key(k) ==> (#[trigger] self.direct@[k]).0 == capped(
                times(failed_keys(fs), k),
            ) && self.direct@[k].1 == last_class(fs, k)
        &&& crate::keyed::counts(self.missing_bins_by_tool@, missing_bins(fs))
    }

    /// A cache without failures.
    pub fn new() -> (r: F39FailureCache)
        ensures
            r.wf(),
            r.holds(Seq::empty()),
    {
        F39FailureCache { direct: KeyedList::new(), missing_bins_by_tool: KeyedList::new() }
    }

    /// Records a failure.
    fn record(
        &mut self,
        name: String,
        arg: String,
        class: F37FailureClass,
        Ghost(fs): Ghost<Seq<Failure>>,
    )
        requires
            old(self).wf(),
            old(self).holds(fs),
        ensures
            final(self).wf(),
            final(self).holds(fs.push(((name@, arg@), class))),
    {
        let ghost f = ((name@, arg@), class);
        let ghost gs = fs.push(f);
        let bin = match class {
            F37FailureClass::BinaryMissing => f39_extract_binary_name(
                name.as_str(),
                arg.as_str(),
            ),
            _ => None,
        };
        let key = (name.clone(), arg);
        proof {
            assert(gs.drop_last() =~= fs);
            assert(failed_keys(gs) =~= failed_keys(fs).push(f.0));
            assert(failed_keys(gs).drop_last() =~= failed_keys(fs));
        }
        let count: u32 = match self.direct.get(&key) {
            Some(e) => count_on(e.0),
            None => 1,
        };
        self.direct.insert(key, (count, class));
        match bin {
            Some(b) => {
                let mk = (name, b);
                let _n = self.missing_bins_by_tool.bump(mk, Ghost(missing_bins(fs)));
            },
            None => {},
        }
    }
}

proof fn lemma_history_calls(h: History, calls: Seq<CallView>)
    ensures
        history_calls(h, calls).failures == h.failures,
    decreases calls.len(),
{
    if calls.len() > 0 {
        lemma_history_calls(h, calls.drop_last());
    }
}

/// Whether the list holds these calls.
spec fn holds_pending(
    list: KeyedList<String, (String, String)>,
    pending: Map<Seq<char>, CallKey>,
) -> bool {
    &&& list.wf()
    &&& forall|k: Seq<char>| #[trigger] list@.contains_key(k) <==> pending.contains_key(k)
    &&& forall|k: Seq<char>| list@.contains_key(k) ==> (#[trigger] list@[k])@ == pending[k]
}

/// Reads the calls of an assistant message.
fn note_calls(
    pending: &mut KeyedList<String, (String, String)>,
    calls: &Vec<IncomingToolCall>,
    Ghost(h): Ghost<History>,
)
    requires
        holds_pending(*old(pending), h.pending),
    ensures
        holds_pending(*final(pending), history_calls(h, incoming_views(calls@)).pending),
{
    let ghost cv = incoming_views(calls@);
    let mut j: usize = 0;
    assert(cv.take(0) =~= Seq::<CallView>::empty());
    while j < calls.len()
        invariant
            j <= calls@.len(),
            cv == incoming_views(calls@),
            holds_pending(*pending, history_calls(h, cv.take(j as int)).pending),
        decreases calls@.len() - j,
    {
        let call = &calls[j];
        proof {
            assert(cv[j as int] == call@);
            assert(cv.take(j + 1).drop_last() =~= cv.take(j as int));
        }
        match &call.id {
            Some(id) => {
                if !same(id.as_str(), "") {
                    match primary_arg_for_tool(
                        call.function.name.as_str(),
                        call.function.arguments.as_str(),
                    ) {
                        Some(arg) => {
                            pending.insert(id.clone(), (call.function.name.clone(), arg));
                        },
                        None => {},
                    }
                }
                proof {
                    reveal_strlit("");
                    assert(id@.len() == 0 ==> id@ =~= ""@);
                }
            },
            None => {},
        }
        j += 1;
    }
    assert(cv.take(j as int) =~= cv);
}

/// Collects the failures of a conversation.
pub fn f39_build_failure_cache(messages: &[IncomingMessage]) -> (r: F39FailureCache)
    ensures
        r.wf(),
        r.holds(history(message_views(messages@)).failures),
{
    let ghost mv = message_views(messages@);
    let mut cache = F39FailureCache::new();
    let mut pending: KeyedList<String, (String, String)> = KeyedList::new();
    let mut i: usize = 0;
    assert(mv.take(0) =~= Seq::<MessageView>::empty());
    while i < messages.len()
        invariant
            i <= messages@.len(),
            mv == message_views(messages@),
            cache.wf(),
            cache.holds(history(mv.take(i as int)).failures),
            holds_pending(pending, history(mv.take(i as int)).pending),
        decreases messages@.len() - i,
    {
        let m = &messages[i];
        let ghost h = history(mv.take(i as int));
        proof {
            assert(mv[i as int] == m@);
            assert(mv.take(i + 1).drop_last() =~= mv.take(i as int));
            lemma_history_calls(h, assistant_calls(m@));
        }
        if same(m.role.as_str(), "assistant") {
            match &m.tool_calls {
                Some(calls) => {
                    note_calls(&mut pending, calls, Ghost(h));
                },
                None => {},
            }
        } else if same(m.role.as_str(), "tool") {
            match &m.tool_call_id {
                Some(id) => {
                    match pending.remove(id) {
                        Some(key) => {
                            match f37_classify_failure(m.content.text.as_str()) {
                                Some(class) => {
                                    let (name, arg) = key;
                                    cache.record(name, arg, class, Ghost(h.failures));
                                },
                                None => {},
                            }
                        },
                        None => {},
                    }
                },
                None => {},
            }
        }
        i += 1;
    }
    assert(mv.take(i as int) =~= mv);
    cache
}

// ---------------------------------------------------------------------------
// Retries
// ---------------------------------------------------------------------------
/// A call that failed before and is made again.
#[derive(Debug, Clone)]
pub struct F39PermanentFailureMatch {
    /// The tool.
    pub tool: String,
    /// The main argument.
    pub primary_arg: String,
    /// Why it failed.
    pub class: F37FailureClass,
    /// How often it failed.
    pub prior_failure_count: u32,
}

/// The mathematical reading of a [`F39PermanentFailureMatch`].
pub struct MatchView {
    /// The call.
    pub key: CallKey,
    /// Why it failed.
    pub class: F37FailureClass,
    /// How often it failed.
    pub count: u32,
}

impl View for F39PermanentFailureMatch {
    type V = MatchView;

    open spec fn view(&self) -> MatchView {
        MatchView {
            key: (self.tool@, self.primary_arg@),
            class: self.class,
            count: self.prior_failure_count,
        }
    }
}

/// The views of a sequence of matches.
pub open spec fn match_views(s: Seq<F39PermanentFailureMatch>) -> Seq<MatchView> {
    s.map_values(|m: F39PermanentFailureMatch| m@)
}

/// What is known against a call: that it failed itself, or that the command it
/// runs was missing.
pub open spec fn known_failure(fs: Seq<Failure>, key: CallKey) -> Option<MatchView> {
    if times(failed_keys(fs), key) > 0 {
        Some(
            MatchView {
                key,
                class: last_class(fs, key),
                count: capped(times(failed_keys(fs), key)),
            },
        )
    } else {
        match binary_name(key.0, key.1) {
            Some(bin) => if times(missing_bins(fs), (key.0, bin)) > 0 {
                Some(
                    MatchView {
                        key,
                        class: F37FailureClass::BinaryMissing,
                        count: capped(times(missing_bins(fs), (key.0, bin))),
                    },
                )
            } else {
                None
            },
            None => None,
        }
    }
}

/// What is known against some calls, each call taken once.
pub open spec fn known_failures(fs: Seq<Failure>, keys: Seq<CallKey>) -> Seq<MatchView>
    decreases keys.len(),
{
    if keys.len() == 0 {
        Seq::empty()
    } else {
        let before = known_failures(fs, keys.drop_last());
        if keys.drop_last().contains(keys.last()) {
            before
        } else {
            match known_failure(fs, keys.last()) {
                Some(m) => before.push(m),
                None => before,
            }
        }
    }
}

/// The calls of the last assistant message.
pub open spec fn last_calls(msgs: Seq<MessageView>) -> Seq<CallView> {
    match last_with_role(msgs, "assistant"@, msgs.len()) {
        Some(i) => assistant_calls(msgs[i]),
        None => Seq::empty(),
    }
}

/// What the cache holds against a call.
fn look_up(
    cache: &F39FailureCache,
    name: String,
    arg: String,
    Ghost(fs): Ghost<Seq<Failure>>,
) -> (r: Option<F39PermanentFailureMatch>)
    requires
        cache.wf(),
        cache.holds(fs),
    ensures
        match r {
            Some(m) => known_failure(fs, (name@, arg@)) == Some(m@),
            None => known_failure(fs, (name@, arg@)) is None,
        },
{
    let ghost kv = (name@, arg@);
    let key = (name, arg);
    match cache.direct.get(&key) {
        Some(e) => {
            assert(cache.direct@.contains_key(kv));
            assert(cache.direct@[kv] == *e);
            return Some(
                F39PermanentFailureMatch {
                    tool: key.0,
                    primary_arg: key.1,
                    class: e.1,
                    prior_failure_count: e.0,
                },
            );
        },
        None => {},
    }
    match f39_extract_binary_name(key.0.as_str(), key.1.as_str()) {
        Some(bin) => {
            let bk = (key.0.clone(), bin);
            match cache.missing_bins_by_tool.get(&bk) {
                Some(n) => Some(
                    F39PermanentFailureMatch {
                        tool: key.0,
                        primary_arg: key.1,
                        class: F37FailureClass::BinaryMissing,
                        prior_failure_count: *n,
                    },
                ),
                None => None,
            }
        },
        None => None,
    }
}

proof fn lemma_known_failures_skip(fs: Seq<Failure>, keys: Seq<CallKey>, key: CallKey)
    ensures
        known_failures(fs, keys.push(key)) == if keys.contains(key) {
            known_failures(fs, keys)
        } else {
            match known_failure(fs, key) {
                Some(m) => known_failures(fs, keys).push(m),
                None => known_failures(fs, keys),
            }
        },
{
    assert(keys.push(key).drop_last() =~= keys);
}

/// Finds the calls of the last assistant message that are known to fail: those
/// that failed before, and those that run a command that was missing. Each
/// call is listed once.
pub fn f39_detect_recent_retries(messages: &[IncomingMessage]) -> (r: Vec<
    F39PermanentFailureMatch,
>)
    ensures
        match_views(r@) == known_failures(
            history(message_views(messages@)).failures,
            keys_of_calls(last_calls(message_views(messages@))),
        ),
{
    let ghost mv = message_views(messages@);
    let ghost fs = history(mv).failures;
    let cache = f39_build_failure_cache(messages);
    let mut matches: Vec<F39PermanentFailureMatch> = Vec::new();
    assert(match_views(matches@) =~= Seq::<MatchView>::empty());
    let at = match find_last(messages, "assistant") {
        Some(i) => i,
        None => return matches,
    };
    assert(mv[at as int] == messages@[at as int]@);
    let calls = match &messages[at].tool_calls {
        Some(c) => c,
        None => return matches,
    };
    let ghost cv = incoming_views(calls@);
    assert(last_calls(mv) == cv);
    let mut seen: KeyedList<(String, String), bool> = KeyedList::new();
    let mut j: usize = 0;
    assert(cv.take(0) =~= Seq::<CallView>::empty());
    while j < calls.len()
        invariant
            j <= calls@.len(),
            cv == incoming_views(calls@),
            cache.wf(),
            cache.holds(fs),
            seen.wf(),
            forall|k: CallKey| #[trigger]
                seen@.contains_key(k) <==> keys_of_calls(cv.take(j as int)).contains(k),
            match_views(matches@) == known_failures(fs, keys_of_calls(cv.take(j as int))),
        decreases calls@.len() - j,
    {
        let call = &calls[j];
        let ghost keys = keys_of_calls(cv.take(j as int));
        proof {
            assert(cv[j as int] == call@);
            assert(cv.take(j + 1).drop_last() =~= cv.take(j as int));
        }
        match primary_arg_for_tool(
            call.function.name.as_str(),
            call.function.arguments.as_str(),
        ) {
            Some(arg) => {
                let key = (call.function.name.clone(), arg);
                let ghost kv = key@;
                proof {
                    lemma_known_failures_skip(fs, keys, kv);
                    assert(keys_of_calls(cv.take(j + 1)) == keys.push(kv));
                    assert forall|k: CallKey| #[trigger] keys.push(kv).contains(k) <==> (
                    keys.contains(k) || k == kv) by {
                        if keys.contains(k) {
                            let q = choose|q: int| 0 <= q < keys.len() && keys[q] == k;
                            assert(keys.push(kv)[q] == k);
                        }
                        if k == kv {
                            assert(keys.push(kv)[keys.len() as int] == k);
                        }
                    }
                }
                let known = match seen.get(&key) {
                    Some(_b) => true,
                    None => false,
                };
                if !known {
                    seen.insert(copy_key(&key), true);
                    let (name, arg) = key;
                    match look_up(&cache, name, arg, Ghost(fs)) {
                        Some(m) => {
                            let ghost before = matches@;
                            let ghost v = m@;
                            matches.push(m);
                            assert(match_views(matches@) =~= match_views(before).push(v));
                        },
                        None => {},
                    }
                }
            },
            None => {},
        }
        j += 1;
    }
    assert(cv.take(j as int) =~= cv);
    matches
}

/// The name of a failure.
pub open spec fn class_label(class: F37FailureClass) -> Seq<char> {
    match class {
        F37FailureClass::BinaryMissing => "binary not installed (command not found / exit 127)"@,
        F37FailureClass::AlreadyExists => "destination already exists"@,
        F37FailureClass::PermissionDenied => "permission denied"@,
        F37FailureClass::NotFound => "path/file not found"@,
        F37FailureClass::InvalidArgument => "invalid argument or environment-state error"@,
        F37FailureClass::StallGuard => "Atlas stall-guard refused this call"@,
    }
}

/// Computes [`class_label`].
pub fn f39_class_label(class: F37FailureClass) -> (r: &'static str)
    ensures
        r@ == class_label(class),
{
    match class {
        F37FailureClass::BinaryMissing => "binary not installed (command not found / exit 127)",
        F37FailureClass::AlreadyExists => "destination already exists",
        F37FailureClass::PermissionDenied => "permission denied",
        F37FailureClass::NotFound => "path/file not found",
        F37FailureClass::InvalidArgument => "invalid argument or environment-state error",
        F37FailureClass::StallGuard => "Atlas stall-guard refused this call",
    }
}

/// The line of one match.
pub open spec fn match_line(m: F39PermanentFailureMatch) -> Seq<char> {
    "- "@ + m.tool@ + "("@ + m.primary_arg@ + ") — "@ + class_label(m.class) + " (failed "@
        + times_text(m.prior_failure_count) + " previously)"@
}

/// The banner that lists the retries and says what to do in their place.
pub open spec fn breaker_banner(matches: Seq<F39PermanentFailureMatch>) -> Seq<char> {
    "<atlas_circuit_breaker>\nCRITICAL: You are repeating tool calls that have already FAILED with PERMANENT errors. The retries below cannot succeed in this environment — the failure is structural (binary missing, file/path absent, permission denied, etc.) and will not change between attempts:\n"@ + join(
        matches.map_values(|m: F39PermanentFailureMatch| match_line(m)),
        "\n"@,
    ) + "\n\nSTOP retrying these calls. Pick ONE of these CONCRETE next actions:\n(a) If the failed tool was a missing binary (cargo, npm, etc.): use the Write tool to create the project files MANUALLY — write the Cargo.toml, src/main.rs, and any other source files directly with their full contents. Do NOT call the missing binary again.\n(b) If the failed tool used a wrong path or argument: try Bash with a SUBSTANTIVELY different command (different directory, different flags, completely different approach). Do NOT vary cosmetically.\n(c) If neither (a) nor (b) is feasible: reply to the user in PLAIN TEXT (no tool call at all) explaining specifically what is blocking and what dependency or permission they need to provide.\nDo NOT issue the same failing tool call again. Do NOT emit a generic \"please clarify your request\" question — the user already gave the request. Pick (a), (b), or (c) and execute it.\n</atlas_circuit_breaker>"@
}

/// Computes [`breaker_banner`].
pub fn f39_build_circuit_breaker_banner(matches: &[F39PermanentFailureMatch]) -> (r: String)
    ensures
        r@ == breaker_banner(matches@),
{
    let ghost lv = matches@.map_values(|m: F39PermanentFailureMatch| match_line(m));
    let mut ls: Vec<String> = Vec::new();
    let mut i: usize = 0;
    while i < matches.len()
        invariant
            i <= matches@.len(),
            lv == matches@.map_values(|m: F39PermanentFailureMatch| match_line(m)),
            views(ls@) == lv.take(i as int),
        decreases matches@.len() - i,
    {
        let m = &matches[i];
        let mut l = "- ".to_owned();
        l.append(m.tool.as_str());
        l.append("(");
        l.append(m.primary_arg.as_str());
        l.append(") — ");
        l.append(f39_class_label(m.class));
        l.append(" (failed ");
        l.append(count_times(m.prior_failure_count).as_str());
        l.append(" previously)");
        let ghost line = l@;
        let ghost before = ls@;
        assert(line == match_line(*m));
        ls.push(l);
        assert(views(ls@) =~= views(before).push(line));
        i += 1;
        assert(views(ls@) =~= lv.take(i as int));
    }
    assert(lv.take(i as int) =~= lv);
    let mut s = "<atlas_circuit_breaker>\nCRITICAL: You are repeating tool calls that have already FAILED with PERMANENT errors. The retries below cannot succeed in this environment — the failure is structural (binary missing, file/path absent, permission denied, etc.) and will not change between attempts:\n".to_owned();
    s.append(join_strings(&ls, "\n").as_str());
    s.append("\n\nSTOP retrying these calls. Pick ONE of these CONCRETE next actions:\n(a) If the failed tool was a missing binary (cargo, npm, etc.): use the Write tool to create the project files MANUALLY — write the Cargo.toml, src/main.rs, and any other source files directly with their full contents. Do NOT call the missing binary again.\n(b) If the failed tool used a wrong path or argument: try Bash with a SUBSTANTIVELY different command (different directory, different flags, completely different approach). Do NOT vary cosmetically.\n(c) If neither (a) nor (b) is feasible: reply to the user in PLAIN TEXT (no tool call at all) explaining specifically what is blocking and what dependency or permission they need to provide.\nDo NOT issue the same failing tool call again. Do NOT emit a generic \"please clarify your request\" question — the user already gave the request. Pick (a), (b), or (c) and execute it.\n</atlas_circuit_breaker>");
    s
}

// ---------------------------------------------------------------------------
// Blocking a call
// ---------------------------------------------------------------------------
/// Whether the cache speaks against a call.
pub open spec fn is_blocked(cache: F39FailureCache, tool: Seq<char>, arg: Seq<char>) -> bool {
    ||| cache.direct@.contains_key((tool, arg))
    ||| binary_name(tool, arg) matches Some(bin)
        && cache.missing_bins_by_tool@.contains_key((tool, bin))
}

/// Whether a call would repeat a known failure.
pub fn f44_check_permanent_failure(cache: &F39FailureCache, tool: &str, args_json: &str) -> (r:
    bool)
    requires
        cache.wf(),
    ensures
        r == (primary_arg(tool@, args_json@) matches Some(arg) && is_blocked(*cache, tool@, arg)),
{
    match primary_arg_for_tool(tool, args_json) {
        Some(arg) => blocks(cache, tool, arg),
        None => false,
    }
}

/// Decides [`is_blocked`].
pub fn blocks(cache: &F39FailureCache, tool: &str, arg: String) -> (r: bool)
    requires
        cache.wf(),
    ensures
        r == is_blocked(*cache, tool@, arg@),
{
    let bin = f39_extract_binary_name(tool, arg.as_str());
    let key = (own(tool), arg);
    match cache.direct.get(&key) {
        Some(_e) => {
            return true;
        },
        None => {},
    }
    match bin {
        Some(b) => {
            let bk = (own(tool), b);
            match cache.missing_bins_by_tool.get(&bk) {
                Some(_n) => true,
                None => false,
            }
        },
        None => false,
    }
}

proof fn lemma_blocked_iff_known(cache: F39FailureCache, fs: Seq<Failure>, key: CallKey)
    requires
        cache.holds(fs),
    ensures
        is_blocked(cache, key.0, key.1) <==> known_failure(fs, key) is Some,
{
    assert(cache.direct@.contains_key(key) <==> times(failed_keys(fs), key) > 0);
    match binary_name(key.0, key.1) {
        Some(bin) => {
            assert(cache.missing_bins_by_tool@.contains_key((key.0, bin)) <==> times(
                missing_bins(fs),
                (key.0, bin),
            ) > 0);
        },
        None => {},
    }
}

/// Whether a call is among those that are reported.
pub open spec fn reports(found: Seq<MatchView>, key: CallKey) -> bool {
    exists|i: int| 0 <= i < found.len() && (#[trigger] found[i]).key == key
}

proof fn lemma_reports(fs: Seq<Failure>, keys: Seq<CallKey>, key: CallKey)
    ensures
        reports(known_failures(fs, keys), key) <==> keys.contains(key) && known_failure(
            fs,
            key,
        ) is Some,
    decreases keys.len(),
{
    let found = known_failures(fs, keys);
    if keys.len() > 0 {
        let less = keys.drop_last();
        let before = known_failures(fs, less);
        let last = keys.last();
        lemma_reports(fs, less, key);
        if keys.contains(key) && key != last {
            let i = choose|i: int| 0 <= i < keys.len() && keys[i] == key;
            assert(less[i] == key);
        }
        if less.contains(key) {
            let i = choose|i: int| 0 <= i < less.len() && less[i] == key;
            assert(keys[i] == key);
        }
        if reports(before, key) {
            let i = choose|i: int| 0 <= i < before.len() && (#[trigger] before[i]).key == key;
            assert(found[i].key == key);
        }
        if reports(found, key) && !reports(before, key) {
            let i = choose|i: int| 0 <= i < found.len() && (#[trigger] found[i]).key == key;
            if i < before.len() {
                assert(before[i].key == key);
            }
        }
        if key == last {
            assert(keys[keys.len() - 1] == key);
            if !less.contains(last) {
                if let Some(m) = known_failure(fs, last) {
                    assert(found[before.len() as int].key == key);
                }
            }
        }
    }
}

proof fn lemma_key_of_call(calls: Seq<CallView>, c: CallView, arg: Seq<char>)
    requires
        calls.contains(c),
        primary_arg(c.name, c.arguments) == Some(arg),
    ensures
        keys_of_calls(calls).contains((c.name, arg)),
    decreases calls.len(),
{
    let i = choose|i: int| 0 <= i < calls.len() && calls[i] == c;
    let less = calls.drop_last();
    let before = keys_of_calls(less);
    if i < calls.len() - 1 {
        assert(less[i] == c);
        lemma_key_of_call(less, c, arg);
        let k = choose|k: int| 0 <= k < before.len() && before[k] == (c.name, arg);
        assert(keys_of_calls(calls)[k] == (c.name, arg));
    } else {
        assert(keys_of_calls(calls)[before.len() as int] == (c.name, arg));
    }
}

/// A call of the last assistant message is blocked while it is made exactly
/// where it is reported as a retry: with the failures of the conversation in
/// the cache, [`f44_check_permanent_failure`] says yes of it if and only if
/// [`f39_detect_recent_retries`] lists it.
pub proof fn law_blocked_iff_reported(
    cache: F39FailureCache,
    msgs: Seq<MessageView>,
    c: CallView,
    arg: Seq<char>,
)
    requires
        cache.holds(history(msgs).failures),
        last_calls(msgs).contains(c),
        primary_arg(c.name, c.arguments) == Some(arg),
    ensures
        is_blocked(cache, c.name, arg) <==> reports(
            known_failures(history(msgs).failures, keys_of_calls(last_calls(msgs))),
            (c.name, arg),
        ),
{
    let fs = history(msgs).failures;
    lemma_blocked_iff_known(cache, fs, (c.name, arg));
    lemma_reports(fs, keys_of_calls(last_calls(msgs)), (c.name, arg));
    lemma_key_of_call(last_calls(msgs), c, arg);
}

/// Where a command was missing, every later shell call of that tool with the
/// same command is known to fail, whatever its other arguments.
pub proof fn law_missing_command_blocks_all(fs: Seq<Failure>, i: int, arg: Seq<char>)
    requires
        0 <= i < fs.len(),
        fs[i].1 == F37FailureClass::BinaryMissing,
        binary_name(fs[i].0.0, fs[i].0.1) is Some,
        binary_name(fs[i].0.0, arg) == binary_name(fs[i].0.0, fs[i].0.1),
    ensures
        known_failure(fs, (fs[i].0.0, arg)) is Some,
{
    lemma_missing_bin_counted(fs, i);
}

proof fn lemma_missing_bin_counted(fs: Seq<Failure>, i: int)
    requires
        0 <= i < fs.len(),
        fs[i].1 == F37FailureClass::BinaryMissing,
        binary_name(fs[i].0.0, fs[i].0.1) is Some,
    ensures
        times(missing_bins(fs), (fs[i].0.0, binary_name(fs[i].0.0, fs[i].0.1)->0)) > 0,
    decreases fs.len(),
{
    let before = missing_bins(fs.drop_last());
    if i < fs.len() - 1 {
        lemma_missing_bin_counted(fs.drop_last(), i);
        assert(fs.drop_last()[i] == fs[i]);
        let ((tool, arg), class) = fs.last();
        match binary_name(tool, arg) {
            Some(bin) => {
                assert(before.push((tool, bin)).drop_last() =~= before);
            },
            None => {},
        }
    } else {
        let ((tool, arg), class) = fs.last();
        let bin = binary_name(tool, arg)->0;
        assert(before.push((tool, bin)).drop_last() =~= before);
    }
}

} // verus!
