//! What a tool call is about: its kind and its main argument.
use vstd::prelude::*;
use crate::bytes::byte_prefix_of;
use crate::bytes::byte_prefix;
use crate::json::{lookup, Json};
use crate::json::{get, lemma_member_views, member_views, str_of, JsonView, Members};
use crate::json_text::parse_json;
use crate::json_text::text_json;
use crate::order::le_strings;
use crate::order::{le, lemma_le_antisym, lemma_le_total, lemma_le_trans};
use crate::text::{chars_of, same_ignoring_case, stands_at, string_of, string_of_all, CharSet};
use crate::text::{lower_all, starts_with};
use crate::tools::opt_view;
use crate::trim::{char_views, part, trim_chars};
use crate::trim::trim;

verus! {

/// How many bytes of an argument count.
pub const KEY_BYTES: usize = 80;

/// How many characters of a command count.
pub const KEY_CHARS: usize = 80;

/// The families of tools.
#[derive(Debug, Clone, Copy, PartialEq, Eq, Structural)]
pub enum ToolKind {
    Bash,
    Write,
    Edit,
    Read,
    MultiEdit,
    Other,
}

/// The family of a tool name; the case of letters does not count.
pub open spec fn kind_of(name: Seq<char>) -> ToolKind {
    let n = lower_all(name);
    if n == lower_all("Bash"@) {
        ToolKind::Bash
    } else if n == lower_all("Write"@) {
        ToolKind::Write
    } else if n == lower_all("Edit"@) {
        ToolKind::Edit
    } else if n == lower_all("Read"@) {
        ToolKind::Read
    } else if n == lower_all("MultiEdit"@) {
        ToolKind::MultiEdit
    } else {
        ToolKind::Other
    }
}

/// Computes [`kind_of`].
pub fn classify_tool(name: &str) -> (r: ToolKind)
    ensures
        r == kind_of(name@),
{
    if same_ignoring_case(name, "Bash") {
        ToolKind::Bash
    } else if same_ignoring_case(name, "Write") {
        ToolKind::Write
    } else if same_ignoring_case(name, "Edit") {
        ToolKind::Edit
    } else if same_ignoring_case(name, "Read") {
        ToolKind::Read
    } else if same_ignoring_case(name, "MultiEdit") {
        ToolKind::MultiEdit
    } else {
        ToolKind::Other
    }
}

// ---------------------------------------------------------------------------
// Shell commands
// ---------------------------------------------------------------------------
/// Whether a piece of a command chain does something: it is not empty and
/// does not only change the directory.
pub open spec fn is_action(piece: Seq<char>) -> bool {
    &&& piece.len() > 0
    &&& !starts_with(piece, "cd "@)
    &&& !starts_with(piece, "cd\t"@)
    &&& piece != "cd"@
}

/// The last of the first `n` pieces, trimmed, that does something; `whole`
/// where none does.
pub open spec fn last_action(pieces: Seq<Seq<char>>, n: nat, whole: Seq<char>) -> Seq<char>
    decreases n,
{
    if n == 0 || n > pieces.len() {
        whole
    } else if is_action(trim(pieces[n - 1], CharSet::White)) {
        trim(pieces[n - 1], CharSet::White)
    } else {
        last_action(pieces, (n - 1) as nat, whole)
    }
}

/// The length of the operator that stands at `i` and joins two commands of a
/// chain: `&&`, `||`, `;` or a line feed. 0 where none does.
pub open spec fn joint(s: Seq<char>, i: int) -> int {
    if !(0 <= i < s.len()) {
        0
    } else if s[i] == ';' || s[i] == '\n' {
        1
    } else if (s[i] == '&' || s[i] == '|') && i + 1 < s.len() && s[i + 1] == s[i] {
        2
    } else {
        0
    }
}

/// The commands of a chain from `from` on, where no operator stands before `i`.
pub open spec fn chain_from(s: Seq<char>, from: int, i: int) -> Seq<Seq<char>>
    decreases s.len() - i,
{
    if i >= s.len() {
        seq![s.subrange(from, s.len() as int)]
    } else if joint(s, i) > 0 {
        seq![s.subrange(from, i)] + chain_from(s, i + joint(s, i), i + joint(s, i))
    } else {
        chain_from(s, from, i + 1)
    }
}

/// The commands of a chain.
pub open spec fn chain(s: Seq<char>) -> Seq<Seq<char>> {
    chain_from(s, 0, 0)
}

/// Computes [`chain`].
fn chain_of(v: &Vec<char>) -> (r: Vec<Vec<char>>)
    ensures
        char_views(r@) == chain(v@),
{
    let mut r: Vec<Vec<char>> = Vec::new();
    let mut from: usize = 0;
    let mut i: usize = 0;
    assert(char_views(r@) + chain(v@) =~= chain(v@));
    while i < v.len()
        invariant
            from <= i <= v@.len(),
            char_views(r@) + chain_from(v@, from as int, i as int) == chain(v@),
        decreases v@.len() - i,
    {
        let n: usize = if v[i] == ';' || v[i] == '\n' {
            1
        } else if (v[i] == '&' || v[i] == '|') && i + 1 < v.len() && v[i + 1] == v[i] {
            2
        } else {
            0
        };
        assert(n == joint(v@, i as int));
        if n > 0 {
            let ghost before = r@;
            let piece = part(v, from, i);
            r.push(piece);
            assert(char_views(r@) =~= char_views(before) + seq![piece@]);
            i += n;
            from = i;
            assert(char_views(r@) + chain_from(v@, from as int, i as int) =~= chain(v@));
        } else {
            i += 1;
        }
    }
    let ghost before = r@;
    let piece = part(v, from, v.len());
    r.push(piece);
    assert(char_views(r@) =~= char_views(before) + seq![piece@]);
    r
}

/// The beginning of a text, of at most `n` characters.
pub open spec fn head(s: Seq<char>, n: int) -> Seq<char> {
    if s.len() <= n {
        s
    } else {
        s.take(n)
    }
}

/// Computes [`head`], of as many characters of a command as count.
fn key_head(v: &Vec<char>) -> (r: String)
    ensures
        r@ == head(v@, KEY_CHARS as int),
{
    let n: usize = if v.len() <= KEY_CHARS {
        v.len()
    } else {
        KEY_CHARS
    };
    let r = string_of(v, 0, n);
    assert(r@ =~= head(v@, KEY_CHARS as int));
    r
}

/// The last command of a chain that does something, cut to 80 characters.
pub open spec fn final_action(command: Seq<char>) -> Seq<char> {
    head(last_action(chain(command), chain(command).len(), command), KEY_CHARS as int)
}

/// Decides [`is_action`].
fn acts(piece: &Vec<char>) -> (r: bool)
    ensures
        r == is_action(piece@),
{
    let cd_space = chars_of("cd ");
    let cd_tab = chars_of("cd\t");
    let cd = chars_of("cd");
    piece.len() > 0 && !stands_at(piece, &cd_space, 0) && !stands_at(piece, &cd_tab, 0)
        && !crate::text::same_chars(piece, &cd)
}

/// Computes [`final_action`].
pub fn extract_bash_final_action(command: &str) -> (r: String)
    ensures
        r@ == final_action(command@),
{
    let chars = chars_of(command);
    let pieces = chain_of(&chars);
    let ghost pv = char_views(pieces@);
    let mut i: usize = pieces.len();
    while i > 0
        invariant
            i <= pieces@.len(),
            pv == char_views(pieces@),
            pv == chain(command@),
            last_action(pv, pv.len(), command@) == last_action(pv, i as nat, command@),
        decreases i,
    {
        assert(pv[i - 1] == pieces@[i - 1]@);
        let piece = trim_chars(&pieces[i - 1], CharSet::White);
        if acts(&piece) {
            return key_head(&piece);
        }
        i -= 1;
    }
    key_head(&chars)
}

// ---------------------------------------------------------------------------
// The main argument
// ---------------------------------------------------------------------------
/// The text of a member.
pub open spec fn text_member(o: Members, key: Seq<char>) -> Option<Seq<char>> {
    match get(o, key) {
        Some(JsonView::Str(s)) => Some(s),
        _ => None,
    }
}

/// Whether the `i`th member is the one that stands for a call without a
/// well-known argument: its value is a text that is not empty, and no such
/// member has a smaller key, or the same key earlier.
pub open spec fn is_first_text(o: Members, i: int) -> bool {
    &&& 0 <= i < o.len()
    &&& is_text(o[i].1)
    &&& forall|j: int|
        0 <= j < o.len() && is_text((#[trigger] o[j]).1) ==> le(o[i].0, o[j].0) && (o[j].0
            == o[i].0 ==> i <= j)
}

/// Whether a value is a text that is not empty.
pub open spec fn is_text(v: JsonView) -> bool {
    v matches JsonView::Str(s) && s.len() > 0
}

/// The argument that stands for a call without a well-known one: the text
/// member with the smallest key, cut to 80 bytes, after its key.
pub open spec fn fallback_arg(o: Members) -> Option<Seq<char>> {
    if exists|i: int| is_first_text(o, i) {
        let i = choose|i: int| is_first_text(o, i);
        Some(o[i].0 + "="@ + byte_prefix(str_of(o[i].1)->0, KEY_BYTES as int))
    } else {
        None
    }
}

/// The main argument of a call with these arguments: the path of a file tool,
/// the last action of a shell command, else the first text in the order of
/// the keys.
pub open spec fn main_arg(kind: ToolKind, args: JsonView) -> Option<Seq<char>> {
    match args {
        JsonView::Object(o) => match kind {
            ToolKind::Bash => match text_member(o, "command"@) {
                Some(c) => Some(final_action(c)),
                None => None,
            },
            ToolKind::Other => fallback_arg(o),
            _ => match text_member(o, "file_path"@) {
                Some(p) => Some(p),
                None => text_member(o, "filePath"@),
            },
        },
        _ => None,
    }
}

/// The main argument of a call, from its arguments' text; `None` where that
/// is not JSON.
pub open spec fn primary_arg(name: Seq<char>, args_text: Seq<char>) -> Option<Seq<char>> {
    match text_json(args_text) {
        Some(args) => main_arg(kind_of(name), args),
        None => None,
    }
}

/// The text of a member.
fn text_at<'a>(o: &'a Vec<(String, Json)>, key: &str) -> (r: Option<&'a String>)
    ensures
        match r {
            Some(s) => text_member(member_views(o@), key@) == Some(s@),
            None => text_member(member_views(o@), key@) is None,
        },
{
    match lookup(o, key) {
        Some(v) => v.as_str(),
        None => None,
    }
}

/// Computes [`main_arg`].
pub fn primary_arg_of(kind: ToolKind, args: &Json) -> (r: Option<String>)
    ensures
        opt_view(r) == main_arg(kind, args@),
{
    let o = match args.as_object() {
        Some(o) => o,
        None => {
            return None;
        },
    };
    match kind {
        ToolKind::Bash => match text_at(o, "command") {
            Some(c) => Some(extract_bash_final_action(c.as_str())),
            None => None,
        },
        ToolKind::Other => first_text(o),
        _ => match text_at(o, "file_path") {
            Some(p) => Some(p.clone()),
            None => match text_at(o, "filePath") {
                Some(p) => Some(p.clone()),
                None => None,
            },
        },
    }
}

/// Computes [`fallback_arg`].
fn first_text(o: &Vec<(String, Json)>) -> (r: Option<String>)
    ensures
        opt_view(r) == fallback_arg(member_views(o@)),
{
    let ghost m = member_views(o@);
    proof {
        lemma_member_views(o@);
    }
    let mut best: Option<usize> = None;
    let mut i: usize = 0;
    while i < o.len()
        invariant
            i <= o@.len(),
            m == member_views(o@),
            m.len() == o@.len(),
            forall|k: int| 0 <= k < o@.len() ==> m[k] == ((#[trigger] o@[k]).0@, o@[k].1@),
            match best {
                None => forall|j: int| 0 <= j < i ==> !is_text((#[trigger] m[j]).1),
                Some(b) => b < i && is_text(m[b as int].1) && forall|j: int|
                    0 <= j < i && is_text((#[trigger] m[j]).1) ==> le(m[b as int].0, m[j].0) && (
                    m[j].0 == m[b as int].0 ==> b <= j),
            },
        decreases o@.len() - i,
    {
        assert(m[i as int] == (o@[i as int].0@, o@[i as int].1@));
        let candidate = match o[i].1.as_str() {
            Some(s) => !s.as_str().is_empty(),
            None => false,
        };
        assert(candidate == is_text(m[i as int].1));
        proof {
            lemma_le_total(m[i as int].0, m[i as int].0, 0);
        }
        if candidate {
            match best {
                None => {
                    best = Some(i);
                },
                Some(b) => {
                    assert(m[b as int] == (o@[b as int].0@, o@[b as int].1@));
                    if !le_strings(o[b].0.as_str(), o[i].0.as_str()) {
                        proof {
                            lemma_le_total(m[i as int].0, m[b as int].0, 0);
                            assert forall|j: int| 0 <= j < i && is_text((#[trigger] m[j]).1) implies
                                le(m[i as int].0, m[j].0) && (m[j].0 == m[i as int].0 ==> i <= j) by {
                                lemma_le_trans(m[i as int].0, m[b as int].0, m[j].0, 0);
                            }
                        }
                        best = Some(i);
                    }
                },
            }
        }
        i += 1;
    }
    match best {
        None => {
            assert(forall|j: int| !is_first_text(m, j));
            None
        },
        Some(b) => {
            proof {
                assert(m[b as int] == (o@[b as int].0@, o@[b as int].1@));
                assert(is_first_text(m, b as int));
                let c = choose|c: int| is_first_text(m, c);
                assert(le(m[b as int].0, m[c].0));
                assert(le(m[c].0, m[b as int].0));
                lemma_le_antisym(m[b as int].0, m[c].0, 0);
                assert(b == c);
            }
            match o[b].1.as_str() {
                Some(s) => {
                    let mut r = o[b].0.clone();
                    r.append("=");
                    let chars = chars_of(s.as_str());
                    let cut = byte_prefix_of(&chars, KEY_BYTES);
                    r.append(string_of_all(&cut).as_str());
                    Some(r)
                },
                None => None,
            }
        },
    }
}

/// Computes [`primary_arg`].
pub fn primary_arg_for_tool(name: &str, args_json: &str) -> (r: Option<String>)
    ensures
        opt_view(r) == primary_arg(name@, args_json@),
{
    match parse_json(args_json) {
        Some(args) => primary_arg_of(classify_tool(name), &args),
        None => None,
    }
}

/// The case of a tool name does not matter to its family, nor to the main
/// argument of a call.
pub proof fn law_tool_names_ignore_case(a: Seq<char>, b: Seq<char>, args: Seq<char>)
    requires
        lower_all(a) == lower_all(b),
    ensures
        kind_of(a) == kind_of(b),
        primary_arg(a, args) == primary_arg(b, args),
{
}

/// The family of a tool is that of its name, however it is written.
pub proof fn law_tools_have_families(name: Seq<char>)
    ensures
        lower_all(name) == lower_all("Bash"@) <==> kind_of(name) == ToolKind::Bash,
        lower_all(name) == lower_all("Write"@) <==> kind_of(name) == ToolKind::Write,
        lower_all(name) == lower_all("Edit"@) <==> kind_of(name) == ToolKind::Edit,
        lower_all(name) == lower_all("Read"@) <==> kind_of(name) == ToolKind::Read,
        lower_all(name) == lower_all("MultiEdit"@) <==> kind_of(name) == ToolKind::MultiEdit,
{
    reveal_strlit("Bash");
    reveal_strlit("Write");
    reveal_strlit("Edit");
    reveal_strlit("Read");
    reveal_strlit("MultiEdit");
    assert(lower_all("Bash"@)[1] == 'a');
    assert(lower_all("Edit"@)[1] == 'd');
    assert(lower_all("Read"@)[1] == 'e');
    assert(lower_all("Bash"@).len() == 4 && lower_all("Edit"@).len() == 4 && lower_all(
        "Read"@,
    ).len() == 4);
    assert(lower_all("Write"@).len() == 5);
    assert(lower_all("MultiEdit"@).len() == 9);
}

/// The main argument of a file tool is the path that it is given.
pub proof fn law_file_tools_are_about_their_file(kind: ToolKind, o: Members, p: Seq<char>)
    requires
        kind != ToolKind::Bash,
        kind != ToolKind::Other,
    ensures
        get(o, "file_path"@) == Some(JsonView::Str(p)) ==> main_arg(kind, JsonView::Object(o))
            == Some(p),
        get(o, "file_path"@) is None && get(o, "filePath"@) == Some(JsonView::Str(p)) ==> main_arg(
            kind,
            JsonView::Object(o),
        ) == Some(p),
        get(o, "file_path"@) is None && get(o, "filePath"@) is None ==> main_arg(
            kind,
            JsonView::Object(o),
        ) is None,
{
}

proof fn lemma_chain_push(a: Seq<char>, joiner: char, c: Seq<char>, from: int, i: int)
    requires
        joiner == ';' || joiner == '\n',
        0 <= from <= i <= a.len(),
        forall|k: int| 0 <= k < c.len() ==> joint(c, k) == 0,
    ensures
        chain_from(a + seq![joiner] + c, from, i) == chain_from(a, from, i).push(c),
    decreases a.len() - i,
{
    let s = a + seq![joiner] + c;
    if i >= a.len() {
        assert(joint(s, i) == 1);
        assert(s.subrange(i + 1, s.len() as int) =~= c);
        lemma_no_joint(s, c, i + 1, i + 1);
        assert(s.subrange(from, i) =~= a.subrange(from, a.len() as int));
        assert(chain_from(s, from, i) =~= chain_from(a, from, i).push(c));
    } else {
        assert(joint(s, i) == joint(a, i)) by {
            assert(s[i] == a[i]);
            if i + 1 < a.len() {
                assert(s[i + 1] == a[i + 1]);
            } else {
                assert(s[i + 1] == joiner);
            }
        }
        let n = joint(a, i);
        if n > 0 {
            lemma_chain_push(a, joiner, c, i + n, i + n);
            assert(s.subrange(from, i) =~= a.subrange(from, i));
            assert(chain_from(s, from, i) =~= chain_from(a, from, i).push(c));
        } else {
            lemma_chain_push(a, joiner, c, from, i + 1);
        }
    }
}

proof fn lemma_no_joint(s: Seq<char>, c: Seq<char>, from: int, i: int)
    requires
        0 <= from <= i <= s.len(),
        s.subrange(from, s.len() as int) == c,
        forall|k: int| 0 <= k < c.len() ==> joint(c, k) == 0,
    ensures
        chain_from(s, from, i) == seq![c],
    decreases s.len() - i,
{
    if i < s.len() {
        assert(joint(c, i - from) == 0);
        assert(c[i - from] == s[i]);
        if i + 1 < s.len() {
            assert(c[i + 1 - from] == s[i + 1]);
        }
        lemma_no_joint(s, c, from, i + 1);
    }
}

/// A shell command is about the last command in it that does something: the one
/// behind the last `;` or line feed, or, where that only changes the directory,
/// the one before.
pub proof fn law_commands_are_about_their_last_action(
    a: Seq<char>,
    joiner: char,
    c: Seq<char>,
)
    requires
        joiner == ';' || joiner == '\n',
        forall|k: int| 0 <= k < c.len() ==> joint(c, k) == 0,
    ensures
        is_action(trim(c, CharSet::White)) && trim(c, CharSet::White).len() <= KEY_CHARS
            ==> final_action(a + seq![joiner] + c) == trim(c, CharSet::White),
        is_action(trim(c, CharSet::White)) && c == trim(c, CharSet::White) && c.len() <= KEY_CHARS
            ==> final_action(c) == c,
        !is_action(trim(c, CharSet::White)) && (forall|k: int|
            0 <= k < a.len() ==> joint(a, k) == 0) && is_action(trim(a, CharSet::White)) && trim(
            a,
            CharSet::White,
        ).len() <= KEY_CHARS ==> final_action(a + seq![joiner] + c) == trim(a, CharSet::White),
{
    let s = a + seq![joiner] + c;
    lemma_chain_push(a, joiner, c, 0, 0);
    let pieces = chain(s);
    let n = pieces.len();
    assert(pieces[n - 1] == c);
    assert(c.subrange(0, c.len() as int) =~= c);
    lemma_no_joint(c, c, 0, 0);
    assert(a.subrange(0, a.len() as int) =~= a);
    if forall|k: int| 0 <= k < a.len() ==> joint(a, k) == 0 {
        lemma_no_joint(a, a, 0, 0);
        assert(pieces =~= seq![a, c]);
        reveal_with_fuel(last_action, 3);
    }
}

/// Any other call is about the text under the smallest key, which is told with
/// it; without a text it is about nothing.
pub proof fn law_other_calls_are_about_their_first_text(o: Members, i: int, s: Seq<char>)
    ensures
        is_first_text(o, i) && o[i].1 == JsonView::Str(s) ==> main_arg(
            ToolKind::Other,
            JsonView::Object(o),
        ) == Some(o[i].0 + "="@ + byte_prefix(s, KEY_BYTES as int)),
        (forall|j: int| 0 <= j < o.len() ==> !is_text((#[trigger] o[j]).1)) ==> main_arg(
            ToolKind::Other,
            JsonView::Object(o),
        ) is None,
{
    if is_first_text(o, i) {
        let c = choose|c: int| is_first_text(o, c);
        assert(le(o[i].0, o[c].0));
        assert(le(o[c].0, o[i].0));
        lemma_le_antisym(o[i].0, o[c].0, 0);
        assert(i == c);
    }
}

} // verus!
