//! The launch dispatcher: what a confirmed selection runs.
use vstd::prelude::*;

use crate::config::{opener_pairs, OpenersConfig};
use crate::text::{
    chars_of, lower_of, lowercase, occurs_at, replace_all, replaced, split_words, string_from, words,
};

verus! {

/// Characters that a POSIX shell word may hold without quoting.
pub open spec fn shell_plain(c: char) -> bool {
    ||| ('a' <= c && c <= 'z')
    ||| ('A' <= c && c <= 'Z')
    ||| ('0' <= c && c <= '9')
    ||| c == '-' || c == '_' || c == '=' || c == '/' || c == ',' || c == '.' || c == '+'
}

/// The body of a single-quoted shell word for `s`: each `'` and `!` leaves the
/// quotes, is escaped with a backslash, and re-enters them.
pub open spec fn quoted_body(s: Seq<char>) -> Seq<char>
    decreases s.len(),
{
    if s.len() == 0 {
        s
    } else {
        let c = s.last();
        quoted_body(s.drop_last()) + if c == '\'' || c == '!' {
            seq!['\'', '\\', c, '\'']
        } else {
            seq![c]
        }
    }
}

/// `s` as one shell word: unchanged when it is non-empty and all plain,
/// otherwise single-quoted.
pub open spec fn shell_escaped(s: Seq<char>) -> Seq<char> {
    if s.len() > 0 && forall|i: int| 0 <= i < s.len() ==> shell_plain(#[trigger] s[i]) {
        s
    } else {
        seq!['\''] + quoted_body(s) + seq!['\'']
    }
}

/// Relies on `shell_escape::unix::escape`: plain words pass unchanged, any
/// other is single-quoted with `'` and `!` escaped outside the quotes.
#[verifier::external_body]
fn shell_escape_word(s: &str) -> (r: String)
    ensures
        r@ == shell_escaped(s@),
{
    shell_escape::unix::escape(std::borrow::Cow::Borrowed(s)).into_owned()
}

/// Where the last path component of `p` starts: just after its last `/`.
pub open spec fn name_start(p: Seq<char>) -> int
    decreases p.len(),
{
    if p.len() == 0 {
        0
    } else if p.last() == '/' {
        p.len() as int
    } else {
        name_start(p.drop_last())
    }
}

/// Position of the last `.` in the last path component of `p`, or -1.
pub open spec fn last_dot(p: Seq<char>) -> int
    decreases p.len(),
{
    if p.len() == 0 {
        -1
    } else if p.last() == '.' {
        p.len() - 1
    } else if p.last() == '/' {
        -1
    } else {
        last_dot(p.drop_last())
    }
}

/// The extension of the path `p`: what follows the last `.` of its last
/// component, where that dot is not the component's first character; empty
/// when there is none.
pub open spec fn extension_of(p: Seq<char>) -> Seq<char> {
    if last_dot(p) > name_start(p) {
        p.skip(last_dot(p) + 1)
    } else {
        Seq::empty()
    }
}

/// The extension of a file path, as `extension_of` states it.
pub fn file_extension(path: &Vec<char>) -> (r: Vec<char>)
    ensures
        r@ == extension_of(path@),
{
    let mut start: usize = 0;
    let mut dot: Option<usize> = None;
    let mut i: usize = 0;
    while i < path.len()
        invariant
            i <= path@.len(),
            start as int == name_start(path@.take(i as int)),
            match dot {
                None => last_dot(path@.take(i as int)) == -1,
                Some(d) => last_dot(path@.take(i as int)) == d as int && d < i,
            },
        decreases path@.len() - i,
    {
        assert(path@.take(i + 1).drop_last() =~= path@.take(i as int));
        let c = path[i];
        if c == '/' {
            start = i + 1;
            dot = None;
        } else if c == '.' {
            dot = Some(i);
        }
        i = i + 1;
    }
    assert(path@.take(path@.len() as int) =~= path@);
    let mut r: Vec<char> = Vec::new();
    match dot {
        Some(d) => {
            if d > start {
                let mut j: usize = d + 1;
                while j < path.len()
                    invariant
                        d + 1 <= j <= path@.len(),
                        r@ == path@.subrange(d + 1, j as int),
                    decreases path@.len() - j,
                {
                    r.push(path[j]);
                    assert(r@ =~= path@.subrange(d + 1, j + 1));
                    j = j + 1;
                }
                assert(r@ =~= path@.skip(d + 1));
            }
        },
        None => {},
    }
    assert(r@.len() == 0 ==> r@ =~= Seq::<char>::empty());
    r
}

/// The placeholder that a template holds for the file.
pub open spec fn file_token() -> Seq<char> {
    seq!['{', 'f', 'i', 'l', 'e', '}']
}

/// The generic opener's command word and the space after it.
pub open spec fn generic_open_prefix() -> Seq<char> {
    seq!['x', 'd', 'g', '-', 'o', 'p', 'e', 'n', ' ']
}

/// The shell command that opens the file at `path`: the configured template
/// for its lowercased extension with the escaped path put in for `{file}`, or
/// the generic opener applied to the escaped path.
pub open spec fn open_command_of(ops: Seq<(Seq<char>, Seq<char>)>, path: Seq<char>) -> Seq<char> {
    let esc = shell_escaped(path);
    match crate::config::opener_for(ops, lower_of(extension_of(path))) {
        Some(t) => replaced(t, file_token(), esc),
        None => generic_open_prefix() + esc,
    }
}

/// The shell command line that opens `filepath` with its configured handler.
pub fn open_command(config: &OpenersConfig, filepath: &str) -> (r: String)
    ensures
        r@ == open_command_of(opener_pairs(config.openers@), filepath@),
{
    let pc = chars_of(filepath);
    let ext = string_from(&file_extension(&pc));
    let ext_lower = chars_of(lowercase(ext.as_str()).as_str());
    let escaped = shell_escape_word(filepath);
    let esc = chars_of(escaped.as_str());
    match config.find_opener(&ext_lower) {
        Some(k) => {
            let template = chars_of(config.openers[k].1.as_str());
            let token: Vec<char> = vec!['{', 'f', 'i', 'l', 'e', '}'];
            string_from(&replace_all(&template, &token, &esc))
        },
        None => {
            let mut out: Vec<char> = vec!['x', 'd', 'g', '-', 'o', 'p', 'e', 'n', ' '];
            let ghost base = out@;
            let mut j: usize = 0;
            while j < esc.len()
                invariant
                    j <= esc@.len(),
                    out@ == base + esc@.subrange(0, j as int),
                decreases esc@.len() - j,
            {
                out.push(esc[j]);
                assert(out@ =~= base + esc@.subrange(0, j + 1));
                j = j + 1;
            }
            assert(esc@.subrange(0, esc@.len() as int) =~= esc@);
            string_from(&out)
        },
    }
}

/// The address of the web search for `query`, with the text put in as typed.
pub open spec fn web_search_url_of(query: Seq<char>) -> Seq<char> {
    seq![
        'h', 't', 't', 'p', 's', ':', '/', '/', 'w', 'w', 'w', '.', 'd', 'u', 'c', 'k', 'd', 'u',
        'c', 'k', 'g', 'o', '.', 'c', 'o', 'm', '/', 's', 'e', 'a', 'r', 'c', 'h', '?', 'q', '=',
    ] + query
}

/// The web search address for `query`.
pub fn web_search_url(query: &str) -> (r: String)
    ensures
        r@ == web_search_url_of(query@),
{
    let mut out: Vec<char> = vec![
        'h', 't', 't', 'p', 's', ':', '/', '/', 'w', 'w', 'w', '.', 'd', 'u', 'c', 'k', 'd', 'u',
        'c', 'k', 'g', 'o', '.', 'c', 'o', 'm', '/', 's', 'e', 'a', 'r', 'c', 'h', '?', 'q', '=',
    ];
    let q = chars_of(query);
    let ghost base = out@;
    let mut j: usize = 0;
    while j < q.len()
        invariant
            j <= q@.len(),
            out@ == base + q@.subrange(0, j as int),
        decreases q@.len() - j,
    {
        out.push(q[j]);
        assert(out@ =~= base + q@.subrange(0, j + 1));
        j = j + 1;
    }
    assert(q@.subrange(0, q@.len() as int) =~= q@);
    string_from(&out)
}

/// A program to run directly, without a shell, and its arguments.
pub struct LaunchCommand {
    pub program: String,
    pub args: Vec<String>,
}

/// The key that opens a descriptor's command line.
pub open spec fn exec_key() -> Seq<char> {
    seq!['E', 'x', 'e', 'c', '=']
}

/// Position `s` starts a line of `c`.
pub open spec fn is_line_start(c: Seq<char>, s: int) -> bool {
    s == 0 || (0 < s <= c.len() && c[s - 1] == '\n')
}

/// A line of `c` starting at `s` begins with the command key.
pub open spec fn exec_line_at(c: Seq<char>, s: int) -> bool {
    is_line_start(c, s) && occurs_at(c, exec_key(), s)
}

/// The first line of `c` that begins with the command key starts at `s`.
pub open spec fn first_exec_line_at(c: Seq<char>, s: int) -> bool {
    exec_line_at(c, s) && forall|s2: int| 0 <= s2 < s ==> !exec_line_at(c, s2)
}

/// Where the line that holds position `s` ends: the next newline, or the end.
pub open spec fn line_end(c: Seq<char>, s: int) -> int
    decreases c.len() - s,
{
    if s < 0 || s >= c.len() {
        c.len() as int
    } else if c[s] == '\n' {
        s
    } else {
        line_end(c, s + 1)
    }
}

/// `s` with every leading repetition of the command key removed.
pub open spec fn trim_key(s: Seq<char>) -> Seq<char>
    decreases s.len(),
{
    if exec_key().is_prefix_of(s) {
        trim_key(s.skip(5))
    } else {
        s
    }
}

/// A word with the descriptor's file and address codes (`%U`, `%u`, `%F`,
/// `%f`) removed, in that order.
pub open spec fn strip_codes(w: Seq<char>) -> Seq<char> {
    let e = Seq::<char>::empty();
    replaced(
        replaced(replaced(replaced(w, seq!['%', 'U'], e), seq!['%', 'u'], e), seq!['%', 'F'], e),
        seq!['%', 'f'],
        e,
    )
}

/// The words of `ws`, codes removed, that are left non-empty.
pub open spec fn cleaned_words(ws: Seq<Seq<char>>) -> Seq<Seq<char>>
    decreases ws.len(),
{
    if ws.len() == 0 {
        Seq::empty()
    } else {
        let prev = cleaned_words(ws.drop_last());
        let w = strip_codes(ws.last());
        if w.len() > 0 {
            prev.push(w)
        } else {
            prev
        }
    }
}

/// The program and arguments that a command line yields.
pub open spec fn command_words(line: Seq<char>) -> Seq<Seq<char>> {
    cleaned_words(words(trim_key(line)))
}

/// The words of the first command line of descriptor text `c`, if it has one.
pub open spec fn descriptor_command(c: Seq<char>) -> Option<Seq<Seq<char>>> {
    if exists|s: int| first_exec_line_at(c, s) {
        let s = choose|s: int| first_exec_line_at(c, s);
        Some(command_words(c.subrange(s, line_end(c, s))))
    } else {
        None
    }
}

/// The string views of a list of strings.
pub open spec fn string_views(v: Seq<String>) -> Seq<Seq<char>> {
    v.map_values(|x: String| x@)
}

/// Reads the command of an application descriptor: the first line that begins
/// with `Exec=`, with leading `Exec=` keys removed, split at whitespace, with
/// file and address codes stripped and emptied words dropped. The first word
/// is the program, the rest its arguments. None when there is no such line or
/// no word is left.
pub fn parse_exec_line(content: &str) -> (r: Option<LaunchCommand>)
    ensures
        match descriptor_command(content@) {
            None => r is None,
            Some(ws) => if ws.len() == 0 {
                r is None
            } else {
                r is Some && r->0.program@ == ws[0] && string_views(r->0.args@) == ws.skip(1)
            },
        },
{
    let c = chars_of(content);
    let key: Vec<char> = vec!['E', 'x', 'e', 'c', '='];
    let mut s: usize = 0;
    loop
        invariant
            c@ == content@,
            s <= c@.len(),
            key@ == exec_key(),
            is_line_start(c@, s as int),
            forall|s2: int| 0 <= s2 < s ==> !exec_line_at(c@, s2),
        decreases c@.len() - s,
    {
        if crate::text::matches_prefix_at(&c, &key, s) {
            let e = find_line_end(&c, s);
            proof {
                assert(first_exec_line_at(c@, s as int));
                lemma_first_exec_unique(c@, s as int);
            }
            let ws = line_command(&c, s, e);
            let ghost cw = command_words(c@.subrange(s as int, e as int));
            assert(descriptor_command(content@) == Some(cw));
            assert(words_view(ws@).len() == ws@.len());
            if ws.len() == 0 {
                return None;
            }
            let program = string_from(&ws[0]);
            assert(program@ == words_view(ws@)[0]);
            let mut args: Vec<String> = Vec::new();
            let mut k: usize = 1;
            while k < ws.len()
                invariant
                    1 <= k <= ws@.len(),
                    string_views(args@) == words_view(ws@).subrange(1, k as int),
                decreases ws@.len() - k,
            {
                let a = string_from(&ws[k]);
                assert(a@ == words_view(ws@)[k as int]);
                let ghost before = args@;
                args.push(a);
                assert(string_views(args@) =~= string_views(before).push(a@));
                assert(string_views(args@) =~= words_view(ws@).subrange(1, k + 1));
                k = k + 1;
            }
            assert(words_view(ws@).subrange(1, ws@.len() as int) =~= words_view(ws@).skip(1));
            return Some(LaunchCommand { program, args });
        }
        let e = find_line_end(&c, s);
        if e == c.len() {
            proof {
                assert forall|s2: int| !(#[trigger] first_exec_line_at(c@, s2)) by {
                    if s2 > s && s2 <= c@.len() && s2 > 0 {
                        assert(c@[s2 - 1] != '\n');
                    }
                }
                assert(descriptor_command(content@) is None);
            }
            return None;
        }
        proof {
            assert forall|s2: int| 0 <= s2 < e + 1 implies !exec_line_at(c@, s2) by {
                if s2 > s && s2 > 0 {
                    assert(c@[s2 - 1] != '\n');
                }
            }
        }
        s = e + 1;
    }
}

/// The character views of a list of character vectors.
pub open spec fn words_view(v: Seq<Vec<char>>) -> Seq<Seq<char>> {
    v.map_values(|x: Vec<char>| x@)
}

proof fn lemma_first_exec_unique(c: Seq<char>, s: int)
    requires
        first_exec_line_at(c, s),
    ensures
        descriptor_command(c) == Some(command_words(c.subrange(s, line_end(c, s)))),
{
    let t = choose|t: int| first_exec_line_at(c, t);
    assert(t == s);
}

/// The end of the line that starts at `s`, with no newline before it.
fn find_line_end(c: &Vec<char>, s: usize) -> (e: usize)
    requires
        s <= c@.len(),
    ensures
        s <= e <= c@.len(),
        e as int == line_end(c@, s as int),
        e < c@.len() ==> c@[e as int] == '\n',
        forall|k: int| s <= k < e ==> c@[k] != '\n',
{
    let mut e: usize = s;
    while e < c.len() && c[e] != '\n'
        invariant
            s <= e <= c@.len(),
            line_end(c@, e as int) == line_end(c@, s as int),
            forall|k: int| s <= k < e ==> c@[k] != '\n',
        decreases c@.len() - e,
    {
        e = e + 1;
    }
    e
}

/// The command words of the line `c[s..e]`.
fn line_command(c: &Vec<char>, s: usize, e: usize) -> (r: Vec<Vec<char>>)
    requires
        s <= e <= c@.len(),
    ensures
        words_view(r@) == command_words(c@.subrange(s as int, e as int)),
{
    let key: Vec<char> = vec!['E', 'x', 'e', 'c', '='];
    let mut from: usize = s;
    while e - from >= 5 && crate::text::matches_prefix_at(c, &key, from)
        invariant
            s <= from <= e,
            e <= c@.len(),
            key@ == exec_key(),
            trim_key(c@.subrange(from as int, e as int)) == trim_key(c@.subrange(s as int, e as int)),
        decreases e - from,
    {
        proof {
            let l = c@.subrange(from as int, e as int);
            assert(l.subrange(0, 5) =~= c@.subrange(from as int, from + 5));
            assert(l.skip(5) =~= c@.subrange(from + 5, e as int));
        }
        from = from + 5;
    }
    let mut body: Vec<char> = Vec::new();
    let mut j: usize = from;
    while j < e
        invariant
            from <= j <= e,
            e <= c@.len(),
            body@ == c@.subrange(from as int, j as int),
        decreases e - j,
    {
        body.push(c[j]);
        assert(body@ =~= c@.subrange(from as int, j + 1));
        j = j + 1;
    }
    proof {
        let l = c@.subrange(from as int, e as int);
        if exec_key().is_prefix_of(l) {
            assert(l.subrange(0, 5) =~= c@.subrange(from as int, from + 5));
        }
        assert(trim_key(l) == l);
    }
    let ws = split_words(&body);
    let pu: Vec<char> = vec!['%', 'U'];
    let pl: Vec<char> = vec!['%', 'u'];
    let fu: Vec<char> = vec!['%', 'F'];
    let fl: Vec<char> = vec!['%', 'f'];
    let none: Vec<char> = Vec::new();
    let mut out: Vec<Vec<char>> = Vec::new();
    let mut i: usize = 0;
    let ghost all = words(body@);
    while i < ws.len()
        invariant
            i <= ws@.len(),
            ws@.len() == all.len(),
            forall|k: int| 0 <= k < ws@.len() ==> (#[trigger] ws@[k])@ == all[k],
            pu@ == seq!['%', 'U'],
            pl@ == seq!['%', 'u'],
            fu@ == seq!['%', 'F'],
            fl@ == seq!['%', 'f'],
            none@ == Seq::<char>::empty(),
            words_view(out@) == cleaned_words(all.take(i as int)),
        decreases ws@.len() - i,
    {
        let w1 = replace_all(&ws[i], &pu, &none);
        let w2 = replace_all(&w1, &pl, &none);
        let w3 = replace_all(&w2, &fu, &none);
        let w4 = replace_all(&w3, &fl, &none);
        assert(all.take(i + 1).drop_last() =~= all.take(i as int));
        if w4.len() > 0 {
            let ghost before = out@;
            out.push(w4);
            assert(words_view(out@) =~= words_view(before).push(w4@));
        }
        i = i + 1;
    }
    assert(all.take(all.len() as int) =~= all);
    out
}

} // verus!
