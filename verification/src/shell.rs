use crate::json::{member, member_text, text, text_member};
use crate::text::{
    chars_of, decimal, decimal_string, lowercase_of, skip_run, string_of, texts, to_lowercase,
    trim_end, trim_start, trimmed_len,
};
use vstd::prelude::*;

verus! {

/// Whether a character is white space, as `char::is_whitespace` tells it.
pub uninterp spec fn is_space(c: char) -> bool;

/// `char::is_whitespace`: the result depends on the character alone.
#[verifier::external_body]
fn char_is_whitespace(c: char) -> (r: bool)
    ensures
        r == is_space(c),
{
    c.is_whitespace()
}

/// The word `current`, where there is one.
pub open spec fn finished_word(current: Seq<char>) -> Seq<Seq<char>> {
    if current.len() > 0 {
        seq![current]
    } else {
        Seq::empty()
    }
}

/// The words of `s` after the characters `current` of a word that is not ended.
pub open spec fn words_after(s: Seq<char>, current: Seq<char>) -> Seq<Seq<char>>
    decreases s.len(),
{
    if s.len() == 0 {
        finished_word(current)
    } else if is_space(s[0]) {
        finished_word(current) + words_after(s.drop_first(), Seq::empty())
    } else {
        words_after(s.drop_first(), current.push(s[0]))
    }
}

/// The words of a line: its runs of characters that are no white space.
pub open spec fn words(s: Seq<char>) -> Seq<Seq<char>> {
    words_after(s, Seq::empty())
}

/// The place of the last `c` in `s`, or -1 where there is none.
pub open spec fn last_index_of(s: Seq<char>, c: char) -> int
    decreases s.len(),
{
    if s.len() == 0 {
        -1
    } else if s.last() == c {
        s.len() - 1
    } else {
        last_index_of(s.drop_last(), c)
    }
}

/// The directory above `current`: what stands before its last separator, its
/// trailing separators not counted; nothing where there is no separator.
pub open spec fn parent_of(current: Seq<char>) -> Seq<char> {
    let trimmed = trim_end(current, '/');
    let cut = last_index_of(trimmed, '/');
    if cut >= 0 {
        trimmed.take(cut)
    } else {
        Seq::empty()
    }
}

/// The directory that a change to `target` leads to from `current`: `..` leads
/// up; a target that begins with a separator is taken from the root; any other
/// is taken below `current`.
pub open spec fn changed_directory(current: Seq<char>, target: Seq<char>) -> Seq<char> {
    if target == seq!['.', '.'] {
        parent_of(current)
    } else if target.len() > 0 && target[0] == '/' {
        trim_start(target, '/')
    } else if current.len() == 0 {
        target
    } else {
        trim_end(current, '/') + seq!['/'] + target
    }
}

/// How a directory is shown: the root as a separator.
pub open spec fn shown_path(current: Seq<char>) -> Seq<char> {
    if current.len() == 0 {
        seq!['/']
    } else {
        current
    }
}

/// The line that tells how many entries a listing leaves out.
pub open spec fn more_line(left_out: nat) -> Seq<char> {
    "  ... and "@ + decimal(left_out) + " more"@
}

/// A listing: the heading, the first `limit` lines, and where lines are left
/// out a line that says how many.
pub open spec fn capped(heading: Seq<char>, lines: Seq<Seq<char>>, limit: nat) -> Seq<Seq<char>> {
    if lines.len() <= limit {
        seq![heading] + lines
    } else {
        (seq![heading] + lines.take(limit as int)).push(more_line((lines.len() - limit) as nat))
    }
}

/// A command and what follows it on the line.
#[derive(Debug, Clone, PartialEq, Eq)]
pub struct CommandLine {
    /// The first word, in lowercase.
    pub name: String,
    /// The other words.
    pub args: Vec<String>,
}

/// Splits a line into its words.
pub fn split_words(line: &str) -> (r: Vec<String>)
    ensures
        texts(r@) == words(line@),
{
    let chars = chars_of(line);
    let mut out: Vec<String> = Vec::new();
    let mut current = String::new();
    let mut i: usize = 0;
    assert(chars@.skip(0) =~= chars@);
    assert(texts(out@) =~= Seq::empty());
    while i < chars.len()
        invariant
            i <= chars.len(),
            chars@ == line@,
            words(chars@) == texts(out@) + words_after(chars@.skip(i as int), current@),
        decreases chars.len() - i,
    {
        let ghost rest = chars@.skip(i as int);
        let ghost before = out@;
        let ghost word = current@;
        proof {
            assert(rest.drop_first() =~= chars@.skip(i + 1));
            assert(rest[0] == chars@[i as int]);
        }
        if char_is_whitespace(chars[i]) {
            assert(words_after(rest, word) == finished_word(word) + words_after(
                chars@.skip(i + 1),
                Seq::empty(),
            ));
            if !current.as_str().is_empty() {
                out.push(current);
                current = String::new();
                assert(texts(out@) =~= texts(before) + finished_word(word));
            } else {
                assert(texts(out@) =~= texts(before) + finished_word(word));
            }
            assert(current@ =~= Seq::<char>::empty());
            assert(texts(before) + (finished_word(word) + words_after(
                chars@.skip(i + 1),
                Seq::empty(),
            )) =~= texts(out@) + words_after(chars@.skip(i + 1), current@));
        } else {
            assert(words_after(rest, word) == words_after(
                chars@.skip(i + 1),
                word.push(chars@[i as int]),
            ));
            current.push(chars[i]);
        }
        i = i + 1;
    }
    assert(words_after(chars@.skip(i as int), current@) == finished_word(current@));
    if !current.as_str().is_empty() {
        let ghost before = out@;
        let ghost word = current@;
        out.push(current);
        assert(texts(out@) =~= texts(before) + finished_word(word));
    } else {
        assert(texts(out@) + finished_word(current@) =~= texts(out@));
    }
    out
}

/// Reads a command line: the command in lowercase and its arguments. A line
/// without a word holds no command.
pub fn parse_command(line: &str) -> (r: Option<CommandLine>)
    ensures
        match r {
            Some(c) => words(line@).len() > 0 && c.name@ == lowercase_of(words(line@)[0])
                && texts(c.args@) == words(line@).skip(1),
            None => words(line@).len() == 0,
        },
{
    let mut parts = split_words(line);
    if parts.len() == 0 {
        return None;
    }
    let ghost all = texts(parts@);
    let first = parts.remove(0);
    assert(texts(parts@) =~= all.skip(1));
    Some(CommandLine { name: to_lowercase(first.as_str()), args: parts })
}

/// Finds the last separator in `chars[..len]`.
fn last_separator(chars: &Vec<char>, len: usize) -> (r: Option<usize>)
    requires
        len <= chars.len(),
    ensures
        match r {
            Some(k) => k < len && last_index_of(chars@.take(len as int), '/') == k,
            None => last_index_of(chars@.take(len as int), '/') == -1,
        },
{
    let mut n: usize = len;
    while n > 0
        invariant
            n <= len <= chars.len(),
            last_index_of(chars@.take(len as int), '/') == last_index_of(
                chars@.take(n as int),
                '/',
            ),
        decreases n,
    {
        if chars[n - 1] == '/' {
            assert(chars@.take(n as int).last() == '/');
            return Some(n - 1);
        }
        proof {
            assert(chars@.take(n as int).drop_last() =~= chars@.take(n - 1));
        }
        n = n - 1;
    }
    None
}

/// The directory that a change to `target` leads to from `current`.
pub fn change_directory(current: &str, target: &str) -> (r: String)
    ensures
        r@ == changed_directory(current@, target@),
{
    let here = chars_of(current);
    let there = chars_of(target);
    if there.len() == 2 && there[0] == '.' && there[1] == '.' {
        assert(there@ =~= seq!['.', '.']);
        let kept = trimmed_len(&here, '/');
        match last_separator(&here, kept) {
            Some(cut) => {
                let r = string_of(&here, 0, cut);
                assert(here@.take(kept as int).take(cut as int) =~= here@.subrange(0, cut as int));
                r
            },
            None => String::new(),
        }
    } else if there.len() > 0 && there[0] == '/' {
        assert(there@.skip(0) =~= there@);
        let start = skip_run(&there, 0, '/');
        let r = string_of(&there, start, there.len());
        assert(there@.skip(start as int) =~= there@.subrange(start as int, there.len() as int));
        r
    } else if here.len() == 0 {
        target.to_owned()
    } else {
        let kept = trimmed_len(&here, '/');
        let mut out = string_of(&here, 0, kept);
        out.push('/');
        out.append(target);
        assert(here@.subrange(0, kept as int) =~= here@.take(kept as int));
        assert(out@ =~= trim_end(current@, '/') + seq!['/'] + target@);
        out
    }
}

/// How a directory is shown.
pub fn path_display(current: &str) -> (r: String)
    ensures
        r@ == shown_path(current@),
{
    if current.is_empty() {
        let r = "/".to_owned();
        proof {
            reveal_strlit("/");
        }
        assert(r@ =~= seq!['/']);
        r
    } else {
        current.to_owned()
    }
}

/// Makes a listing of `lines` under `heading` that shows `limit` lines at most.
pub fn capped_listing(heading: String, lines: &Vec<String>, limit: usize) -> (r: Vec<String>)
    ensures
        texts(r@) == capped(heading@, texts(lines@), limit as nat),
{
    let ghost all = texts(lines@);
    let shown = if lines.len() <= limit {
        lines.len()
    } else {
        limit
    };
    let mut out: Vec<String> = Vec::new();
    let ghost heading_view = heading@;
    out.push(heading);
    assert(texts(out@) =~= seq![heading_view] + all.take(0));
    let mut i: usize = 0;
    while i < shown
        invariant
            i <= shown <= lines.len(),
            all == texts(lines@),
            texts(out@) == seq![heading_view] + all.take(i as int),
        decreases shown - i,
    {
        let ghost before = out@;
        out.push(lines[i].clone());
        assert(texts(out@) =~= texts(before).push(lines@[i as int]@));
        assert(seq![heading_view] + all.take(i + 1) =~= (seq![heading_view] + all.take(
            i as int,
        )).push(all[i as int]));
        i = i + 1;
    }
    if lines.len() > limit {
        let mut line = "  ... and ".to_owned();
        line.append(decimal_string(lines.len() - limit).as_str());
        line.append(" more");
        let ghost before = out@;
        let ghost line_view = line@;
        out.push(line);
        assert(texts(out@) =~= texts(before).push(line_view));
    } else {
        assert(all.take(shown as int) =~= all);
    }
    out
}

/// The title under which an item is listed: its `title` member where it has
/// one, else its `id` member; `untitled` where that is no string.
pub open spec fn listed_title(item: serde_json::Value) -> Seq<char> {
    match crate::mutation::item_title(item) {
        Some(t) => t,
        None => "untitled"@,
    }
}

/// The type under which an item is listed: its `@type` member, or `unknown`.
pub open spec fn listed_type(item: serde_json::Value) -> Seq<char> {
    match text_member(item, "@type"@) {
        Some(t) => t,
        None => "unknown"@,
    }
}

/// The title under which an item is listed.
pub fn display_title(item: &serde_json::Value) -> (r: String)
    ensures
        r@ == listed_title(*item),
{
    let title = match member(item, "title") {
        Some(t) => match text(t) {
            Some(s) => Some(s.to_owned()),
            None => None,
        },
        None => member_text(item, "id"),
    };
    match title {
        Some(t) => t,
        None => "untitled".to_owned(),
    }
}

/// The type under which an item is listed.
pub fn display_type(item: &serde_json::Value) -> (r: String)
    ensures
        r@ == listed_type(*item),
{
    match member_text(item, "@type") {
        Some(t) => t,
        None => "unknown".to_owned(),
    }
}

} // verus!
