//! What counts as progress, as a repetition and as a leak.
use vstd::prelude::*;
use crate::bytes::{byte_len, lemma_byte_len_bounds};
use crate::decimal::{dec, dec_int, law_numbers_read_back};
use crate::failures::breaker::{binary_name, enters_directory, past_directories};
use crate::failures::calls::{assistant_calls, call_count, call_keys, keys_of_calls, CallKey};
use crate::failures::circuit::refusal_anchor;
use crate::failures::classification::{
    after_calls, bounded, content_hash, is_hard_error, is_trivial, normalized, progress,
    progress_reminder, setting, F23ProgressMetrics,
};
use crate::failures::duplicate::{
    call_write, duplicate_banner, duplicate_line, duplicate_writes, error_copy_text, first_error,
    last_calling, repeated, with_error_copy, write_of, writes, writes_of_calls, F49DuplicateWrite,
    WriteKey,
};
use crate::failures::leaks::{
    block, close_tag, declared_names, first_block, harness_tags, leak_names, open_tag, stripped,
    with_tags, without_blocks,
};
use crate::failures::notice::times_text;
use crate::failures::stall::looks_like_error;
use crate::failures::watchdog::{
    hits, is_candidate, last_candidate, line_key, lines_like, repeats, squeezed, suffix_start,
    window, WINDOW_BYTES,
};
use crate::json::{get, JsonView, Members};
use crate::keyed::{capped, times};
use crate::messages::MessageView;
use crate::text::{
    contains, find_from, is_ascii_space, lemma_find_from, lemma_find_from_is, lemma_find_from_none,
    lemma_stands_between, lemma_stands_through, lower, lower_all, occurs_at, CharSet,
};
use crate::tool_args::{kind_of, primary_arg, ToolKind};
use crate::tools::{CallView, ToolDefinition};
use crate::trim::{
    join, law_join_holds_the_parts, law_parts_stand_in_their_join, law_trimming_takes_the_ends,
    lemma_lead, lemma_until, lines, replace, trim, trim_end, trim_start, until,
};

verus! {

// ---------------------------------------------------------------------------
// Commands
// ---------------------------------------------------------------------------
/// The program that a shell command runs is its first word, once the commands
/// that only enter a directory are past.
pub proof fn law_program_is_the_first_word(
    tool: Seq<char>,
    word: Seq<char>,
    rest: Seq<char>,
    dir: Seq<char>,
    more: Seq<char>,
)
    requires
        kind_of(tool) == ToolKind::Bash,
    ensures
        word.len() > 0 && (forall|i: int|
            0 <= i < word.len() ==> !CharSet::White.has(#[trigger] word[i])) && (rest.len() > 0
            ==> CharSet::White.has(rest[0])) && !enters_directory(word + rest) ==> binary_name(
            tool,
            word + rest,
        ) == Some(word),
        (forall|i: int| 0 <= i < dir.len() ==> #[trigger] dir[i] != '&') ==> binary_name(
            tool,
            "cd "@ + dir + "&&"@ + more,
        ) == binary_name(tool, more),
{
    if word.len() > 0 && (forall|i: int|
        0 <= i < word.len() ==> !CharSet::White.has(#[trigger] word[i])) && (rest.len() > 0
        ==> CharSet::White.has(rest[0])) && !enters_directory(word + rest) {
        let s = word + rest;
        assert(s[0] == word[0]);
        lemma_lead(s, CharSet::White, 0);
        assert(trim_start(s, CharSet::White) =~= s);
        lemma_until(s, CharSet::White, 0);
        let k = until(s, CharSet::White, 0);
        if k < word.len() {
            assert(s[k] == word[k]);
        }
        if k > word.len() {
            assert(s[word.len() as int] == rest[0]);
        }
        assert(s.take(k) =~= word);
        assert(past_directories(s) == s);
    }
    if forall|i: int| 0 <= i < dir.len() ==> #[trigger] dir[i] != '&' {
        let s = "cd "@ + dir + "&&"@ + more;
        reveal_strlit("cd ");
        reveal_strlit("&&");
        assert(s[0] == 'c');
        lemma_lead(s, CharSet::White, 0);
        assert(trim_start(s, CharSet::White) =~= s);
        assert(s.subrange(0, 3) =~= "cd "@);
        let at = (3 + dir.len()) as int;
        assert(s.subrange(at, at + 2) =~= "&&"@);
        assert forall|j: int| 0 <= j < at implies !occurs_at(s, "&&"@, j) by {
            if occurs_at(s, "&&"@, j) {
                assert(s.subrange(j, j + 2)[0] == s[j]);
                if j >= 3 {
                    assert(s[j] == dir[j - 3]);
                }
            }
        }
        lemma_find_from_is(s, "&&"@, 0, at);
        assert(s.skip(at + 2) =~= more);
    }
}

// ---------------------------------------------------------------------------
// Progress
// ---------------------------------------------------------------------------
/// A result that was not seen before is a step forward; one that was, or that is
/// an error, is a step back. What was seen is remembered.
pub proof fn law_new_results_are_progress(msgs: Seq<MessageView>, m: MessageView)
    requires
        m.role == "tool"@,
    ensures
        ({
            let p = progress(msgs);
            let q = progress(msgs.push(m));
            &&& is_hard_error(m.text) ==> q.score == bounded(p.score - 1) && q.hashes == p.hashes
            &&& !is_hard_error(m.text) ==> q.hashes == p.hashes.insert(content_hash(m.text))
            &&& !is_hard_error(m.text) && !is_trivial(m.text) && !p.hashes.contains(
                content_hash(m.text),
            ) ==> q.score == bounded(p.score + 1)
            &&& !is_hard_error(m.text) && !is_trivial(m.text) && p.hashes.contains(
                content_hash(m.text),
            ) ==> q.score == bounded(p.score - 1)
            &&& is_trivial(m.text) ==> q.score <= p.score || q.score == bounded(p.score)
            &&& q.calls == p.calls
        }),
{
    reveal_strlit("assistant");
    reveal_strlit("tool");
    assert("assistant"@.len() != "tool"@.len());
    assert(msgs.push(m).drop_last() =~= msgs);
    let p = progress(msgs);
    assert(assistant_calls(m) =~= Seq::<CallView>::empty());
    assert(keys_of_calls(assistant_calls(m)) =~= Seq::<CallKey>::empty());
    assert(after_calls(p, Seq::<CallKey>::empty()) == p);
}

/// A call that was made before is a step back; one that was not is none.
pub proof fn law_repeated_calls_are_no_progress(
    msgs: Seq<MessageView>,
    m: MessageView,
    c: CallView,
    arg: Seq<char>,
)
    requires
        m.role == "assistant"@,
        m.tool_calls == Some(seq![c]),
        primary_arg(c.name, c.arguments) == Some(arg),
    ensures
        ({
            let p = progress(msgs);
            let q = progress(msgs.push(m));
            let key = (c.name, arg);
            &&& q.calls == p.calls.push(key)
            &&& q.pending == Some(key)
            &&& p.calls.contains(key) ==> q.score == bounded(p.score - 1)
            &&& !p.calls.contains(key) ==> q.score == p.score
        }),
{
    reveal_strlit("assistant");
    reveal_strlit("tool");
    assert("assistant"@.len() != "tool"@.len());
    assert(msgs.push(m).drop_last() =~= msgs);
    let p = progress(msgs);
    let key = (c.name, arg);
    let one = seq![c];
    assert(one.drop_last() =~= Seq::<CallView>::empty());
    assert(keys_of_calls(one.drop_last()) =~= Seq::<CallKey>::empty());
    assert(keys_of_calls(one) =~= seq![key]);
    assert(seq![key].drop_last() =~= Seq::<CallKey>::empty());
    assert(after_calls(p, seq![key].drop_last()) == p);
    lemma_times(p.calls, key);
}

proof fn lemma_times<A>(s: Seq<A>, k: A)
    ensures
        times(s, k) > 0 <==> s.contains(k),
    decreases s.len(),
{
    if s.len() > 0 {
        lemma_times(s.drop_last(), k);
        if s.drop_last().contains(k) {
            let i = choose|i: int| 0 <= i < s.drop_last().len() && s.drop_last()[i] == k;
            assert(s[i] == k);
        }
        if s.last() == k {
            assert(s[s.len() - 1] == k);
        }
        if s.contains(k) && s.last() != k {
            let i = choose|i: int| 0 <= i < s.len() && s[i] == k;
            assert(s.drop_last()[i] == k);
        }
    }
}

/// Calls are counted one by one.
pub proof fn law_calls_are_counted(msgs: Seq<MessageView>, m: MessageView)
    requires
        assistant_calls(m).len() <= u32::MAX,
    ensures
        call_count(Seq::<MessageView>::empty()) == 0,
        call_count(msgs.push(m)) == capped(call_count(msgs) as nat + assistant_calls(m).len()),
        m.role != "assistant"@ ==> call_count(msgs.push(m)) == call_count(msgs),
        m.role == "assistant"@ ==> (m.tool_calls matches Some(c) ==> call_count(msgs.push(m))
            == capped(call_count(msgs) as nat + c.len())),
{
    assert(msgs.push(m).drop_last() =~= msgs);
}

/// The model is told how many calls it made and how far they brought it, once
/// there are enough of them without progress; while there is progress it is not.
pub proof fn law_progress_is_told(metrics: F23ProgressMetrics, warn: u32, refuse: u32)
    ensures
        metrics.score > 0 ==> progress_reminder(metrics, warn, refuse) is None,
        metrics.attempts < warn && metrics.attempts < refuse ==> progress_reminder(
            metrics,
            warn,
            refuse,
        ) is None,
        metrics.score <= 0 && (metrics.attempts >= warn || metrics.attempts >= refuse)
            ==> progress_reminder(metrics, warn, refuse) is Some,
        progress_reminder(metrics, warn, refuse) matches Some(t) ==> contains(
            t,
            dec(metrics.attempts as nat),
        ) && contains(t, dec_int(metrics.score as int)),
{
    if let Some(t) = progress_reminder(metrics, warn, refuse) {
        let a = "\n\n<system-reminder>\n[F23 STALL] You have called "@;
        let n = dec(metrics.attempts as nat);
        let b = " tools without making progress (progress_score="@;
        let s = dec_int(metrics.score as int);
        let end = t.skip((a + n + b + s).len() as int);
        assert(t =~= a + n + b + s + end);
        lemma_stands_between(a + n + b, s, end);
        lemma_stands_between(a, n, b + s + end);
        assert(t =~= a + n + (b + s + end));
    }
}

/// A setting is the number that it says, and the default where it says none.
pub proof fn law_settings_are_read(n: u32, default: u32)
    ensures
        setting(Some(dec(n as nat)), default) == n,
        setting(None, default) == default,
{
    law_numbers_read_back(n as nat, n as nat, u32::MAX as nat);
}

/// A line without white space behind it is compared as it is.
pub proof fn law_plain_lines_are_compared_whole(s: Seq<char>)
    requires
        s.len() > 0,
        !CharSet::White.has(s.last()),
        forall|i: int| 0 <= i < s.len() ==> #[trigger] s[i] != '\n',
    ensures
        normalized(s) == s,
{
    lemma_until(s, CharSet::Feed, 0);
    assert(until(s, CharSet::Feed, 0) == s.len());
    assert(s.subrange(0, s.len() as int) =~= s);
    assert(lines(s) =~= seq![s]);
    law_trimming_takes_the_ends(s, CharSet::White);
    let t = trim_end(s, CharSet::White);
    if t.len() < s.len() {
        assert(s.skip(t.len() as int)[s.len() - 1 - t.len()] == s.last());
    }
    assert(t =~= s);
    let parts = lines(s).map_values(|l: Seq<char>| trim_end(l, CharSet::White));
    assert(parts =~= seq![s]);
    law_join_holds_the_parts(Seq::empty(), "\n"@, s);
}

// ---------------------------------------------------------------------------
// Writes
// ---------------------------------------------------------------------------
/// What a call writes is known by its path and its content: of a write the whole
/// content, of an edit the old text and the new.
pub proof fn law_writes_are_read(o: Members, path: Seq<char>, a: Seq<char>, b: Seq<char>)
    requires
        get(o, "file_path"@) == Some(JsonView::Str(path)) || (get(o, "file_path"@) is None && get(
            o,
            "filePath"@,
        ) == Some(JsonView::Str(path))),
    ensures
        get(o, "content"@) == Some(JsonView::Str(a)) ==> write_of(
            ToolKind::Write,
            JsonView::Object(o),
        ) == Some((path, content_hash(a))),
        get(o, "oldString"@) == Some(JsonView::Str(a)) && get(o, "newString"@) == Some(
            JsonView::Str(b),
        ) ==> write_of(ToolKind::Edit, JsonView::Object(o)) == Some(
            (path, content_hash(a + seq!['\u{1F}'] + b)),
        ),
        get(o, "oldString"@) is None ==> write_of(ToolKind::Edit, JsonView::Object(o)) is None,
        write_of(ToolKind::MultiEdit, JsonView::Object(o)) == write_of(
            ToolKind::Edit,
            JsonView::Object(o),
        ),
        write_of(ToolKind::Read, JsonView::Object(o)) is None,
        write_of(ToolKind::Bash, JsonView::Object(o)) is None,
{
    assert(a.push('\u{1F}') + b =~= a + seq!['\u{1F}'] + b);
}

/// A write that was made before is noticed when it is made again, with the
/// number of times; and every write is remembered.
pub proof fn law_same_write_is_noticed(
    msgs: Seq<MessageView>,
    ask: MessageView,
    c: CallView,
    w: WriteKey,
)
    requires
        ask.role == "assistant"@,
        ask.tool_calls == Some(seq![c]),
        call_write(c.name, c.arguments) == Some(w),
    ensures
        writes(msgs.push(ask)) == writes(msgs).push(w),
        writes(msgs).contains(w) ==> duplicate_writes(msgs.push(ask)) == seq![
            (w.0, capped(times(writes(msgs), w))),
        ],
        !writes(msgs).contains(w) ==> duplicate_writes(msgs.push(ask)).len() == 0,
{
    let all = msgs.push(ask);
    assert(all.drop_last() =~= msgs);
    let one = seq![c];
    assert(assistant_calls(ask) == one);
    assert(one.drop_last() =~= Seq::<CallView>::empty());
    assert(writes_of_calls(one.drop_last()) =~= Seq::<WriteKey>::empty());
    assert(writes_of_calls(one) =~= seq![w]);
    assert(writes(all) =~= writes(msgs).push(w));
    assert(all[all.len() - 1] == ask);
    assert(last_calling(all, all.len()) == Some(all.len() - 1));
    assert(all.take(all.len() - 1) =~= msgs);
    lemma_times(writes(msgs), w);
    let now = seq![w];
    assert(now.drop_last() =~= Seq::<WriteKey>::empty());
    assert(repeated(writes(msgs), now.drop_last()) =~= Seq::<(Seq<char>, u32)>::empty());
    assert(!now.drop_last().contains(w));
    assert(now.last() == w);
}

/// The banner names every file that is written again, and how often it was.
pub proof fn law_banner_names_every_file(hits: Seq<F49DuplicateWrite>, i: int)
    requires
        0 <= i < hits.len(),
    ensures
        contains(duplicate_banner(hits), hits[i].file_path@),
        contains(duplicate_banner(hits), dec(hits[i].prior_count as nat)),
{
    let d = hits[i];
    let parts = hits.map_values(|d: F49DuplicateWrite| duplicate_line(d));
    let line = duplicate_line(d);
    assert(parts[i] == line);
    law_parts_stand_in_their_join(parts, "\n"@, i);
    let whole = duplicate_banner(hits);
    let all = join(parts, "\n"@);
    let head =
        "<atlas_duplicate_write>\nCRITICAL: You are about to write the SAME content to the following file(s) that you ALREADY wrote earlier in this conversation. The new write is byte-identical to a prior write:\n"@;
    let k = head.len() as int;
    assert(whole.subrange(k, k + all.len()) =~= all);
    assert(occurs_at(whole, all, k));
    lemma_stands_through(whole, all, line);
    let count = times_text(d.prior_count);
    let end = " with byte-identical content)"@;
    lemma_stands_between("- "@, d.file_path@, " (already written "@ + count + end);
    assert(line =~= "- "@ + d.file_path@ + (" (already written "@ + count + end));
    lemma_stands_between("- "@ + d.file_path@ + " (already written "@, count, end);
    let none = Seq::<char>::empty();
    let n = dec(d.prior_count as nat);
    let s = if d.prior_count == 1 {
        ""@
    } else {
        "s"@
    };
    lemma_stands_between(none, n, " time"@ + s);
    assert(count =~= none + n + (" time"@ + s));
    lemma_stands_through(line, count, n);
    lemma_stands_through(whole, line, d.file_path@);
    lemma_stands_through(whole, line, n);
}

proof fn lemma_first_error(msgs: Seq<MessageView>, i: int)
    requires
        0 <= i,
    ensures
        match first_error(msgs, i) {
            Some(k) => i <= k < msgs.len() && msgs[k].role == "tool"@ && looks_like_error(
                msgs[k].text,
            ) && forall|j: int|
                i <= j < k ==> !((#[trigger] msgs[j]).role == "tool"@ && looks_like_error(
                    msgs[j].text,
                )),
            None => forall|j: int|
                i <= j < msgs.len() ==> !((#[trigger] msgs[j]).role == "tool"@ && looks_like_error(
                    msgs[j].text,
                )),
        },
    decreases msgs.len() - i,
{
    if i < msgs.len() && !(msgs[i].role == "tool"@ && looks_like_error(msgs[i].text)) {
        lemma_first_error(msgs, i + 1);
    }
}

/// What is called back to mind is the first error of the conversation, in its
/// own words, as an answer to the last call; nothing before it changes.
pub proof fn law_first_error_is_called_to_mind(msgs: Seq<MessageView>, i: int)
    requires
        with_error_copy(msgs) is Some,
        0 <= i < msgs.len(),
        msgs[i].role == "tool"@,
        looks_like_error(msgs[i].text),
        forall|j: int|
            0 <= j < i ==> !((#[trigger] msgs[j]).role == "tool"@ && looks_like_error(
                msgs[j].text,
            )),
    ensures
        ({
            let after = with_error_copy(msgs)->0;
            &&& after.len() == msgs.len() + 1
            &&& after.drop_last() == msgs
            &&& after.last().role == "tool"@
            &&& contains(after.last().text, trim(msgs[i].text, CharSet::White))
            &&& refusal_anchor(msgs) matches Some((_, id)) && after.last().tool_call_id == Some(id)
        }),
{
    lemma_first_error(msgs, 0);
    let k = first_error(msgs, 0)->0;
    assert(k == i);
    let after = with_error_copy(msgs)->0;
    assert(after.drop_last() =~= msgs);
    let t = trim(msgs[i].text, CharSet::White);
    let text = error_copy_text(msgs[i].text);
    let head =
        "[atlas-original-error] You have lost focus on the ORIGINAL error that prompted this work. Re-read it carefully — it likely cites a specific file, line, or symbol that needs to change:\n\n----- BEGIN ORIGINAL ERROR -----\n"@;
    let n = head.len() as int;
    assert(text.subrange(n, n + t.len()) =~= t);
    assert(occurs_at(text, t, n));
}

// ---------------------------------------------------------------------------
// Leaks
// ---------------------------------------------------------------------------
proof fn lemma_with_tags(names: Seq<Seq<char>>, tags: Seq<Seq<char>>, n: nat)
    requires
        n <= tags.len(),
    ensures
        forall|i: int| 0 <= i < names.len() ==> with_tags(names, tags, n).contains(
            #[trigger] names[i],
        ),
        forall|i: int| 0 <= i < n ==> with_tags(names, tags, n).contains(#[trigger] tags[i]),
    decreases n,
{
    let all = with_tags(names, tags, n);
    if n == 0 {
        assert forall|i: int| 0 <= i < names.len() implies all.contains(#[trigger] names[i]) by {
            assert(all[i] == names[i]);
        }
    } else {
        lemma_with_tags(names, tags, (n - 1) as nat);
        let before = with_tags(names, tags, (n - 1) as nat);
        assert forall|x: Seq<char>| before.contains(x) implies all.contains(x) by {
            let k = choose|k: int| 0 <= k < before.len() && before[k] == x;
            assert(all[k] == x);
        }
        if !before.contains(tags[n - 1]) {
            assert(all[before.len() as int] == tags[n - 1]);
        }
    }
}

proof fn lemma_declared(defs: Seq<ToolDefinition>, i: int)
    requires
        0 <= i < defs.len(),
        byte_len(defs[i].function.name@) >= 3,
    ensures
        declared_names(defs).contains(lower_all(defs[i].function.name@)),
    decreases defs.len(),
{
    let less = defs.drop_last();
    let before = declared_names(less);
    let all = declared_names(defs);
    let x = lower_all(defs[i].function.name@);
    if i < less.len() {
        assert(less[i] == defs[i]);
        lemma_declared(less, i);
        let k = choose|k: int| 0 <= k < before.len() && before[k] == x;
        assert(all[k] == x);
    } else {
        assert(all[before.len() as int] == x);
    }
}

/// Markup is looked for under the name of every tool that has more than two
/// letters, and under those that harnesses use.
pub proof fn law_leaks_are_looked_for(defs: Seq<ToolDefinition>, i: int)
    ensures
        0 <= i < defs.len() && byte_len(defs[i].function.name@) >= 3 ==> leak_names(defs).contains(
            lower_all(defs[i].function.name@),
        ),
        leak_names(defs).contains("task"@),
        leak_names(defs).contains("file"@),
        leak_names(defs).contains("content"@),
        leak_names(defs).contains("description"@),
        leak_names(defs).contains("prompt"@),
        leak_names(defs).contains("glob"@),
{
    let names = declared_names(defs);
    let tags = harness_tags();
    lemma_with_tags(names, tags, tags.len());
    assert(tags[0] == "task"@ && tags[1] == "file"@ && tags[2] == "content"@ && tags[3]
        == "description"@ && tags[4] == "prompt"@ && tags[5] == "glob"@);
    if 0 <= i < defs.len() && byte_len(defs[i].function.name@) >= 3 {
        lemma_declared(defs, i);
        let x = lower_all(defs[i].function.name@);
        let k = choose|k: int| 0 <= k < names.len() && names[k] == x;
        assert(names[k] == x);
    }
}

/// A block of leaked markup is taken out, with all that is in it; what stands
/// before and behind it is kept, but for blanks at the end and runs of empty
/// lines.
pub proof fn law_leaked_block_is_taken_out(
    name: Seq<char>,
    a: Seq<char>,
    b: Seq<char>,
    c: Seq<char>,
)
    requires
        lower_all(name) == name,
        forall|i: int| 0 <= i < name.len() ==> #[trigger] name[i] != '<',
        forall|i: int| 0 <= i < a.len() ==> #[trigger] a[i] != '<',
        forall|i: int| 0 <= i < b.len() ==> #[trigger] b[i] != '<',
        forall|i: int| 0 <= i < c.len() ==> #[trigger] c[i] != '<',
    ensures
        stripped(a + open_tag(name) + b + close_tag(name) + c, seq![name]) == replace(
            trim_end(a + c, CharSet::Blank),
            "\n\n\n"@,
            "\n\n"@,
        ),
{
    let open = open_tag(name);
    let close = close_tag(name);
    let text = a + open + b + close + c;
    let s = lower_all(text);
    let names = seq![name];
    let i = a.len() as int;
    let body = i + open.len();
    let j = body + b.len();
    let end = j + close.len();
    assert forall|k: int| 0 <= k < name.len() implies lower(#[trigger] name[k]) == name[k] by {
        assert(lower_all(name)[k] == lower(name[k]));
    }
    assert forall|k: int| 0 <= k < s.len() && k != i && k != j implies #[trigger] s[k] != '<' by {
        if k < i {
            assert(text[k] == a[k]);
        } else if k < body {
            assert(text[k] == open[k - i]);
            if k < body - 1 {
                assert(open[k - i] == name[k - i - 1]);
            }
        } else if k < j {
            assert(text[k] == b[k - body]);
        } else if k < end {
            assert(text[k] == close[k - j]);
            if k - j >= 2 && k < end - 1 {
                assert(close[k - j] == name[k - j - 2]);
            }
        } else {
            assert(text[k] == c[k - end]);
        }
    }
    assert(s.subrange(i, i + open.len()) =~= open) by {
        assert forall|k: int| 0 <= k < open.len() implies s[i + k] == open[k] by {
            assert(text[i + k] == open[k]);
            if 0 < k < open.len() - 1 {
                assert(open[k] == name[k - 1]);
            }
        }
    }
    assert(s.subrange(j, j + close.len()) =~= close) by {
        assert forall|k: int| 0 <= k < close.len() implies s[j + k] == close[k] by {
            assert(text[j + k] == close[k]);
            if 2 <= k < close.len() - 1 {
                assert(close[k] == name[k - 2]);
            }
        }
    }
    assert forall|k: int| 0 <= k < i implies !occurs_at(s, open, k) by {
        if occurs_at(s, open, k) {
            assert(s.subrange(k, k + open.len())[0] == s[k]);
        }
    }
    lemma_find_from_is(s, open, 0, i);
    assert forall|k: int| body <= k < j implies !occurs_at(s, close, k) by {
        if occurs_at(s, close, k) {
            assert(s.subrange(k, k + close.len())[0] == s[k]);
        }
    }
    lemma_find_from_is(s, close, body, j);
    assert(block(s, name, 0) == Some((i, end)));
    assert forall|k: int| end <= k implies !occurs_at(s, open, k) by {
        if occurs_at(s, open, k) {
            assert(s.subrange(k, k + open.len())[0] == s[k]);
        }
    }
    lemma_find_from_none(s, open, end);
    assert(block(s, name, end) is None);
    reveal_with_fuel(first_block, 2);
    assert(first_block(s, names, 1, 0) == Some((i, end)));
    assert(first_block(s, names, 1, end) is None);
    assert(text.subrange(0, i) =~= a);
    assert(text.skip(end) =~= c);
    assert(without_blocks(text, s, names, end) == c);
    assert(without_blocks(text, s, names, 0) =~= a + c);
}

// ---------------------------------------------------------------------------
// Loops
// ---------------------------------------------------------------------------
proof fn lemma_suffix_start(s: Seq<char>, n: nat, k: int)
    requires
        0 <= k <= s.len(),
    ensures
        k <= suffix_start(s, n, k) <= s.len(),
    decreases s.len() - k,
{
    if k < s.len() && byte_len(s.skip(k)) > n {
        lemma_suffix_start(s, n, k + 1);
    }
}

/// What is watched is the end of what was said, and all of it while it is short.
pub proof fn law_watched_text_is_the_end(s: Seq<char>)
    ensures
        window(s).len() <= s.len(),
        window(s) == s.skip(s.len() - window(s).len()),
        byte_len(s) <= WINDOW_BYTES ==> window(s) == s,
{
    lemma_suffix_start(s, crate::failures::watchdog::KEPT_BYTES as nat, 0);
    assert(s.skip(0) =~= s);
    assert(window(s) =~= s.skip(s.len() - window(s).len()));
}

proof fn lemma_squeezed(s: Seq<char>)
    requires
        s.len() > 0,
        !is_ascii_space(s[0]),
    ensures
        squeezed(s).len() > 0,
        squeezed(s)[0] == s[0],
    decreases s.len(),
{
    if s.len() > 1 {
        assert(s.drop_last()[0] == s[0]);
        lemma_squeezed(s.drop_last());
    } else {
        assert(squeezed(s.drop_last()) =~= Seq::<char>::empty());
        assert(s.last() == s[0]);
        assert(squeezed(s) =~= seq![s[0]]);
    }
}

proof fn lemma_lines_like(ls: Seq<Seq<char>>, key: Seq<char>)
    ensures
        lines_like(ls, key) <= ls.len(),
    decreases ls.len(),
{
    if ls.len() > 0 {
        lemma_lines_like(ls.drop_last(), key);
    }
}

/// A line said four times over at the end, long enough and no fence, is a loop.
pub proof fn law_line_said_four_times_is_a_loop(s: Seq<char>, before: Seq<Seq<char>>, l: Seq<char>)
    requires
        lines(s) == before + seq![l, l, l, l],
        is_candidate(l),
    ensures
        repeats(s),
{
    let ls = lines(s);
    let n = ls.len();
    assert(ls[n - 1] == l);
    assert(last_candidate(ls, n) == Some(l));
    let key = line_key(l);
    let three = ls.drop_last();
    let two = three.drop_last();
    let one = two.drop_last();
    assert(ls.last() == l && three.last() == l && two.last() == l && one.last() == l);
    assert(lines_like(one, key) >= 1);
    assert(lines_like(two, key) >= 2);
    assert(lines_like(three, key) >= 3);
    assert(lines_like(ls, key) >= 4);
    let t = trim(l, CharSet::White);
    law_trimming_takes_the_ends(l, CharSet::White);
    lemma_byte_len_bounds(t);
    let q = lower_all(t);
    assert(q[0] == lower(t[0]));
    assert(!is_ascii_space(q[0]));
    lemma_squeezed(q);
    assert(squeezed(q)[0] != ' ');
}

proof fn lemma_hits(s: Seq<char>, p: Seq<char>, from: int)
    requires
        0 <= from <= s.len(),
        p.len() > 0,
    ensures
        hits(s, p, from) * p.len() <= s.len() - from,
    decreases s.len() - from,
{
    lemma_find_from(s, p, from);
    if let Some(i) = find_from(s, p, from) {
        let rest = hits(s, p, i + p.len());
        lemma_hits(s, p, i + p.len());
        assert((1 + rest) * p.len() == p.len() + rest * p.len()) by (nonlinear_arith);
    } else {
        assert(0 * p.len() == 0);
    }
}

/// A text that says nothing four times is no loop: one of fewer than four lines
/// and fewer than four times thirty bytes is not.
pub proof fn law_short_text_is_no_loop(s: Seq<char>)
    requires
        lines(s).len() < 4,
        s.len() < 32,
    ensures
        !repeats(s),
{
    let ls = lines(s);
    if let Some(l) = last_candidate(ls, ls.len()) {
        let key = line_key(l);
        lemma_lines_like(ls, key);
        if key.len() > 0 && byte_len(key) >= 30 {
            lemma_byte_len_bounds(key);
            lemma_hits(lower_all(s), key, 0);
            let h = hits(lower_all(s), key, 0);
            assert(h < 4) by (nonlinear_arith)
                requires
                    h * key.len() <= s.len(),
                    s.len() < 32,
                    key.len() >= 8,
            ;
        }
    }
}

/// Every call with a main argument is among those that are counted.
pub proof fn law_every_call_is_counted(
    msgs: Seq<MessageView>,
    i: int,
    calls: Seq<CallView>,
    j: int,
    arg: Seq<char>,
)
    requires
        0 <= i < msgs.len(),
        msgs[i].role == "assistant"@,
        msgs[i].tool_calls == Some(calls),
        0 <= j < calls.len(),
        primary_arg(calls[j].name, calls[j].arguments) == Some(arg),
    ensures
        call_keys(msgs).contains((calls[j].name, arg)),
        times(call_keys(msgs), (calls[j].name, arg)) > 0,
    decreases msgs.len(),
{
    let key = (calls[j].name, arg);
    let less = msgs.drop_last();
    let before = call_keys(less);
    let last = keys_of_calls(assistant_calls(msgs.last()));
    let all = call_keys(msgs);
    if i < less.len() {
        assert(less[i] == msgs[i]);
        law_every_call_is_counted(less, i, calls, j, arg);
        let k = choose|k: int| 0 <= k < before.len() && before[k] == key;
        assert(all[k] == key);
    } else {
        lemma_keys_of_calls(calls, j, arg);
        let k = choose|k: int| 0 <= k < last.len() && last[k] == key;
        assert(all[before.len() + k] == key);
    }
    lemma_times(all, key);
}

proof fn lemma_keys_of_calls(calls: Seq<CallView>, j: int, arg: Seq<char>)
    requires
        0 <= j < calls.len(),
        primary_arg(calls[j].name, calls[j].arguments) == Some(arg),
    ensures
        keys_of_calls(calls).contains((calls[j].name, arg)),
    decreases calls.len(),
{
    let key = (calls[j].name, arg);
    let less = calls.drop_last();
    let before = keys_of_calls(less);
    let all = keys_of_calls(calls);
    if j < less.len() {
        assert(less[j] == calls[j]);
        lemma_keys_of_calls(less, j, arg);
        let k = choose|k: int| 0 <= k < before.len() && before[k] == key;
        assert(all[k] == key);
    } else {
        assert(all[before.len() as int] == key);
    }
}

/// A score is kept as it is, as long as it fits.
pub proof fn law_scores_are_bounded(n: int)
    ensures
        i32::MIN <= n <= i32::MAX ==> bounded(n) == n,
        i32::MIN <= bounded(n) <= i32::MAX,
        n > i32::MAX ==> bounded(n) == i32::MAX,
        n < i32::MIN ==> bounded(n) == i32::MIN,
{
}

/// A line is looked at where it has more than fifteen bytes and is no fence.
pub proof fn law_long_lines_are_looked_at(l: Seq<char>)
    requires
        trim(l, CharSet::White) == l,
        !occurs_at(trim_start(l, CharSet::White), "```"@, 0),
    ensures
        is_candidate(l) <==> byte_len(l) >= 16,
{
}

/// A line without runs of white space is compared as it is, but for the case of
/// its letters.
pub proof fn law_plain_spacing_is_kept(s: Seq<char>)
    requires
        s.len() > 0 ==> !is_ascii_space(s[0]),
        forall|i: int| 0 <= i < s.len() && is_ascii_space(#[trigger] s[i]) ==> s[i] == ' ',
        forall|i: int|
            0 < i < s.len() && is_ascii_space(#[trigger] s[i]) ==> !is_ascii_space(s[i - 1]),
    ensures
        squeezed(s) == s,
    decreases s.len(),
{
    if s.len() > 0 {
        let less = s.drop_last();
        assert forall|i: int| 0 <= i < less.len() && is_ascii_space(#[trigger] less[i]) implies less[i]
            == ' ' by {
            assert(s[i] == less[i]);
        }
        assert forall|i: int| 0 < i < less.len() && is_ascii_space(#[trigger] less[i]) implies
            !is_ascii_space(less[i - 1]) by {
            assert(s[i] == less[i]);
        }
        if less.len() > 0 {
            assert(less[0] == s[0]);
        }
        law_plain_spacing_is_kept(less);
        let n = s.len() - 1;
        assert(s[n] == s.last());
        assert(squeezed(s) =~= less.push(s.last()));
        assert(less.push(s.last()) =~= s);
    }
}

/// A trivial result neither helps nor harms, until the third call of a kind gives
/// the same again: that is two steps back.
pub proof fn law_trivial_results_wear_out(msgs: Seq<MessageView>, m: MessageView, k: CallKey)
    requires
        m.role == "tool"@,
        is_trivial(m.text),
        !is_hard_error(m.text),
        progress(msgs).pending == Some(k),
    ensures
        ({
            let p = progress(msgs);
            let q = progress(msgs.push(m));
            let h = content_hash(m.text);
            &&& q.trivial == p.trivial.insert(k, h)
            &&& q.pending is None
            &&& p.trivial.contains_key(k) && p.trivial[k] == h && times(p.calls, k) >= 3
                ==> q.score == bounded(p.score - 2)
            &&& !(p.trivial.contains_key(k) && p.trivial[k] == h && times(p.calls, k) >= 3)
                ==> q.score == p.score
        }),
{
    reveal_strlit("assistant");
    reveal_strlit("tool");
    assert("assistant"@.len() != "tool"@.len());
    assert(msgs.push(m).drop_last() =~= msgs);
    let p = progress(msgs);
    assert(assistant_calls(m) =~= Seq::<CallView>::empty());
    assert(keys_of_calls(assistant_calls(m)) =~= Seq::<CallKey>::empty());
    assert(after_calls(p, Seq::<CallKey>::empty()) == p);
}

} // verus!
