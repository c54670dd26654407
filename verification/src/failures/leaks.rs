//! Taking tool calls that were written as tags out of the assistant's prose.
use vstd::prelude::*;
use crate::bytes::longer_than;
use crate::bytes::byte_len;
use crate::text::{chars_of, find_chars, lower_chars, same_chars, string_of_all, CharSet};
use crate::text::{find_from, lemma_find_from, lower_all};
use crate::tools::ToolDefinition;
use crate::trim::{char_views, push_part, replace_chars, trim_end_chars};
use crate::trim::{replace, trim_end};

verus! {

/// The tags that agent harnesses use, though no tool has their name.
pub open spec fn harness_tags() -> Seq<Seq<char>> {
    seq!["task"@, "file"@, "content"@, "description"@, "prompt"@, "glob"@]
}

/// The names of the tools in small letters, as far as they have at least three
/// bytes.
pub open spec fn declared_names(defs: Seq<ToolDefinition>) -> Seq<Seq<char>>
    decreases defs.len(),
{
    if defs.len() == 0 {
        Seq::empty()
    } else {
        let before = declared_names(defs.drop_last());
        let name = defs.last().function.name@;
        if byte_len(name) >= 3 {
            before.push(lower_all(name))
        } else {
            before
        }
    }
}

/// `names` and those of the first `n` tags that are not among them.
pub open spec fn with_tags(names: Seq<Seq<char>>, tags: Seq<Seq<char>>, n: nat) -> Seq<Seq<char>>
    decreases n,
{
    if n == 0 || n > tags.len() {
        names
    } else {
        let before = with_tags(names, tags, (n - 1) as nat);
        if before.contains(tags[n - 1]) {
            before
        } else {
            before.push(tags[n - 1])
        }
    }
}

/// The names whose tags are taken out.
pub open spec fn leak_names(defs: Seq<ToolDefinition>) -> Seq<Seq<char>> {
    with_tags(declared_names(defs), harness_tags(), harness_tags().len())
}

/// The opening tag.
pub open spec fn open_tag(name: Seq<char>) -> Seq<char> {
    seq!['<'] + name + seq!['>']
}

/// The closing tag.
pub open spec fn close_tag(name: Seq<char>) -> Seq<char> {
    seq!['<', '/'] + name + seq!['>']
}

/// Where the first block of this name at or after `from` begins and ends: from
/// its opening tag to behind the closing tag that follows.
pub open spec fn block(s: Seq<char>, name: Seq<char>, from: int) -> Option<(int, int)> {
    match find_from(s, open_tag(name), from) {
        Some(i) => match find_from(s, close_tag(name), i + open_tag(name).len()) {
            Some(j) => Some((i, j + close_tag(name).len())),
            None => None,
        },
        None => None,
    }
}

/// The block of one of the first `n` names that begins first; of two that
/// begin together that of the earlier name.
pub open spec fn first_block(s: Seq<char>, names: Seq<Seq<char>>, n: nat, from: int) -> Option<
    (int, int),
>
    decreases n,
{
    if n == 0 || n > names.len() {
        None
    } else {
        let best = first_block(s, names, (n - 1) as nat, from);
        match (best, block(s, names[n - 1], from)) {
            (Some(b), Some(c)) => if b.0 <= c.0 {
                Some(b)
            } else {
                Some(c)
            },
            (None, c) => c,
            (b, None) => b,
        }
    }
}

proof fn lemma_block(s: Seq<char>, name: Seq<char>, from: int)
    requires
        0 <= from,
    ensures
        block(s, name, from) matches Some(b) ==> from <= b.0 < b.1 <= s.len(),
{
    lemma_find_from(s, open_tag(name), from);
    match find_from(s, open_tag(name), from) {
        Some(i) => {
            lemma_find_from(s, close_tag(name), i + open_tag(name).len());
        },
        None => {},
    }
}

proof fn lemma_first_block(s: Seq<char>, names: Seq<Seq<char>>, n: nat, from: int)
    requires
        0 <= from,
        n <= names.len(),
    ensures
        first_block(s, names, n, from) matches Some(b) ==> from <= b.0 < b.1 <= s.len(),
    decreases n,
{
    if n > 0 {
        lemma_first_block(s, names, (n - 1) as nat, from);
        lemma_block(s, names[n - 1], from);
    }
}

/// What is left from `from` on when the blocks are taken out. Tags are looked
/// for in `s`, which is `text` in small letters.
pub open spec fn without_blocks(
    text: Seq<char>,
    s: Seq<char>,
    names: Seq<Seq<char>>,
    from: int,
) -> Seq<char>
    decreases text.len() - from,
    when 0 <= from <= text.len() && s.len() == text.len()
    via without_blocks_decreases
{
    match first_block(s, names, names.len(), from) {
        Some((i, j)) => text.subrange(from, i) + without_blocks(text, s, names, j),
        None => text.skip(from),
    }
}

#[via_fn]
proof fn without_blocks_decreases(
    text: Seq<char>,
    s: Seq<char>,
    names: Seq<Seq<char>>,
    from: int,
) {
    lemma_first_block(s, names, names.len(), from);
}

/// The prose without leaked blocks. Where one was taken out, blanks at the end
/// are removed and three line feeds in a row become two; a text without a block
/// stays as it is.
pub open spec fn stripped(content: Seq<char>, names: Seq<Seq<char>>) -> Seq<char> {
    let s = lower_all(content);
    if first_block(s, names, names.len(), 0) is None {
        content
    } else {
        replace(
            trim_end(without_blocks(content, s, names, 0), CharSet::Blank),
            "\n\n\n"@,
            "\n\n"@,
        )
    }
}

/// Whether `name` is in the list.
fn listed(names: &Vec<Vec<char>>, name: &Vec<char>) -> (r: bool)
    ensures
        r == char_views(names@).contains(name@),
{
    let mut i: usize = 0;
    while i < names.len()
        invariant
            i <= names@.len(),
            forall|j: int| 0 <= j < i ==> (#[trigger] names@[j])@ != name@,
        decreases names@.len() - i,
    {
        if same_chars(&names[i], name) {
            assert(char_views(names@)[i as int] == name@);
            return true;
        }
        i += 1;
    }
    proof {
        if char_views(names@).contains(name@) {
            let q = choose|q: int|
                0 <= q < char_views(names@).len() && char_views(names@)[q] == name@;
            assert(names@[q]@ == name@);
        }
    }
    false
}

/// Adds `tag` to the list, unless it is there.
fn list_tag(names: &mut Vec<Vec<char>>, tag: &str, Ghost(base): Ghost<Seq<Seq<char>>>, Ghost(
    n,
): Ghost<nat>)
    requires
        0 < n <= harness_tags().len(),
        harness_tags()[n - 1] == tag@,
        char_views(old(names)@) == with_tags(base, harness_tags(), (n - 1) as nat),
    ensures
        char_views(final(names)@) == with_tags(base, harness_tags(), n),
{
    let v = chars_of(tag);
    if !listed(names, &v) {
        let ghost before = names@;
        names.push(v);
        assert(char_views(names@) =~= char_views(before).push(tag@));
    }
}

/// Computes [`leak_names`].
fn names_of(defs: &[ToolDefinition]) -> (r: Vec<Vec<char>>)
    ensures
        char_views(r@) == leak_names(defs@),
{
    let mut names: Vec<Vec<char>> = Vec::new();
    let mut i: usize = 0;
    assert(defs@.take(0) =~= Seq::<ToolDefinition>::empty());
    assert(char_views(names@) =~= Seq::<Seq<char>>::empty());
    while i < defs.len()
        invariant
            i <= defs@.len(),
            char_views(names@) == declared_names(defs@.take(i as int)),
        decreases defs@.len() - i,
    {
        assert(defs@.take(i + 1).drop_last() =~= defs@.take(i as int));
        let name = chars_of(defs[i].function.name.as_str());
        if longer_than(&name, 2) {
            let ghost before = names@;
            names.push(lower_chars(&name));
            assert(char_views(names@) =~= char_views(before).push(lower_all(name@)));
        }
        i += 1;
    }
    assert(defs@.take(i as int) =~= defs@);
    let ghost base = declared_names(defs@);
    list_tag(&mut names, "task", Ghost(base), Ghost(1));
    list_tag(&mut names, "file", Ghost(base), Ghost(2));
    list_tag(&mut names, "content", Ghost(base), Ghost(3));
    list_tag(&mut names, "description", Ghost(base), Ghost(4));
    list_tag(&mut names, "prompt", Ghost(base), Ghost(5));
    list_tag(&mut names, "glob", Ghost(base), Ghost(6));
    names
}

/// Computes [`block`].
fn find_block(s: &Vec<char>, name: &Vec<char>, from: usize) -> (r: Option<(usize, usize)>)
    requires
        from <= s@.len(),
    ensures
        match r {
            Some((i, j)) => block(s@, name@, from as int) == Some((i as int, j as int)),
            None => block(s@, name@, from as int) is None,
        },
{
    let mut open: Vec<char> = Vec::new();
    open.push('<');
    push_part(&mut open, name, 0, name.len());
    open.push('>');
    assert(open@ =~= open_tag(name@));
    let mut close: Vec<char> = Vec::new();
    close.push('<');
    close.push('/');
    push_part(&mut close, name, 0, name.len());
    close.push('>');
    assert(close@ =~= close_tag(name@));
    match find_chars(s, &open, from) {
        Some(i) => match find_chars(s, &close, i + open.len()) {
            Some(j) => Some((i, j + close.len())),
            None => None,
        },
        None => None,
    }
}

/// Computes [`first_block`] for all the names.
fn find_first_block(s: &Vec<char>, names: &Vec<Vec<char>>, from: usize) -> (r: Option<
    (usize, usize),
>)
    requires
        from <= s@.len(),
    ensures
        match r {
            Some((i, j)) => first_block(s@, char_views(names@), names@.len(), from as int) == Some(
                (i as int, j as int),
            ) && from <= i < j <= s@.len(),
            None => first_block(s@, char_views(names@), names@.len(), from as int) is None,
        },
{
    let ghost nv = char_views(names@);
    let mut best: Option<(usize, usize)> = None;
    let mut n: usize = 0;
    while n < names.len()
        invariant
            n <= names@.len(),
            from <= s@.len(),
            nv == char_views(names@),
            match best {
                Some((i, j)) => first_block(s@, nv, n as nat, from as int) == Some(
                    (i as int, j as int),
                ),
                None => first_block(s@, nv, n as nat, from as int) is None,
            },
        decreases names@.len() - n,
    {
        assert(nv[n as int] == names@[n as int]@);
        match find_block(s, &names[n], from) {
            Some(c) => {
                let keep = match best {
                    Some(b) => b.0 <= c.0,
                    None => false,
                };
                if !keep {
                    best = Some(c);
                }
            },
            None => {},
        }
        n += 1;
    }
    proof {
        lemma_first_block(s@, nv, nv.len(), from as int);
    }
    best
}

/// Takes the blocks out; `None` where there is none.
fn take_out(text: &Vec<char>, names: &Vec<Vec<char>>) -> (r: Option<Vec<char>>)
    ensures
        match r {
            Some(left) => first_block(
                lower_all(text@),
                char_views(names@),
                names@.len(),
                0,
            ) is Some && left@ == without_blocks(text@, lower_all(text@), char_views(names@), 0),
            None => first_block(lower_all(text@), char_views(names@), names@.len(), 0) is None,
        },
{
    let s = lower_chars(text);
    if find_first_block(&s, names, 0).is_none() {
        return None;
    }
    let ghost nv = char_views(names@);
    let mut out: Vec<char> = Vec::new();
    let mut from: usize = 0;
    assert(out@ + without_blocks(text@, s@, nv, 0) =~= without_blocks(text@, s@, nv, 0));
    loop
        invariant
            from <= text@.len(),
            s@ == lower_all(text@),
            nv == char_views(names@),
            first_block(s@, nv, names@.len(), 0) is Some,
            out@ + without_blocks(text@, s@, nv, from as int) == without_blocks(text@, s@, nv, 0),
        decreases text@.len() - from,
    {
        match find_first_block(&s, names, from) {
            Some((i, j)) => {
                let ghost rest = without_blocks(text@, s@, nv, j as int);
                let ghost before = out@;
                push_part(&mut out, text, from, i);
                assert(out@ + rest =~= before + (text@.subrange(from as int, i as int) + rest));
                from = j;
            },
            None => {
                push_part(&mut out, text, from, text.len());
                assert(text@.subrange(from as int, text@.len() as int) =~= text@.skip(
                    from as int,
                ));
                return Some(out);
            },
        }
    }
}

/// Removes from the assistant's prose every block `<NAME>…</NAME>` whose name
/// is that of a declared tool of at least three bytes, or one of the tags that
/// agent harnesses use, in capitals or small letters. A tag that is not closed
/// stays.
pub fn strip_xml_leaks_from_assistant_content(content: &str, tool_defs: &[ToolDefinition]) -> (r:
    String)
    ensures
        r@ == stripped(content@, leak_names(tool_defs@)),
{
    let names = names_of(tool_defs);
    let chars = chars_of(content);
    let left = match take_out(&chars, &names) {
        Some(left) => left,
        None => {
            return string_of_all(&chars);
        },
    };
    let trimmed = trim_end_chars(&left, CharSet::Blank);
    let three = chars_of("\n\n\n");
    let two = chars_of("\n\n");
    proof {
        reveal_strlit("\n\n\n");
    }
    string_of_all(&replace_chars(&trimmed, &three, &two))
}

/// Prose without a closed block is kept as it is.
pub proof fn law_prose_is_kept(content: Seq<char>, names: Seq<Seq<char>>)
    requires
        forall|i: int|
            0 <= i < names.len() ==> block(lower_all(content), #[trigger] names[i], 0) is None,
    ensures
        stripped(content, names) == content,
{
    lemma_no_first_block(lower_all(content), names, names.len());
}

proof fn lemma_no_first_block(s: Seq<char>, names: Seq<Seq<char>>, n: nat)
    requires
        n <= names.len(),
        forall|i: int| 0 <= i < names.len() ==> block(s, #[trigger] names[i], 0) is None,
    ensures
        first_block(s, names, n, 0) is None,
    decreases n,
{
    if n > 0 {
        lemma_no_first_block(s, names, (n - 1) as nat);
        assert(block(s, names[n - 1], 0) is None);
    }
}

} // verus!
