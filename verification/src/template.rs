//! Command templates: `{{name}}` placeholders, parameter validation rules and
//! POSIX shell quoting.

use vstd::prelude::*;
use crate::strmap::{al_get, StrMap};
use crate::text::{from_chars, is_whitespace, is_ws, slice_range, to_chars};

verus! {

// ---------------------------------------------------------------------------
// Placeholder grammar: `{{`, optional white space, a name made of ASCII
// letters, digits, `_` and `-`, optional white space, `}}`.
// ---------------------------------------------------------------------------

pub open spec fn is_name_char(c: char) -> bool {
    ('a' <= c && c <= 'z') || ('A' <= c && c <= 'Z') || ('0' <= c && c <= '9') || c == '_' || c
        == '-'
}

/// First position at or after `i` that is not white space.
pub open spec fn skip_ws(s: Seq<char>, i: int) -> int
    decreases s.len() - i,
{
    if 0 <= i < s.len() && is_ws(s[i]) {
        skip_ws(s, i + 1)
    } else {
        i
    }
}

/// First position at or after `i` that is not a name character.
pub open spec fn skip_name(s: Seq<char>, i: int) -> int
    decreases s.len() - i,
{
    if 0 <= i < s.len() && is_name_char(s[i]) {
        skip_name(s, i + 1)
    } else {
        i
    }
}

/// The placeholder that starts at `i`, if one does: its end and its name.
pub open spec fn placeholder_at(s: Seq<char>, i: int) -> Option<(int, Seq<char>)> {
    if 0 <= i && i + 1 < s.len() && s[i] == '{' && s[i + 1] == '{' {
        let a = skip_ws(s, i + 2);
        let b = skip_name(s, a);
        let c = skip_ws(s, b);
        if b > a && c + 1 < s.len() && s[c] == '}' && s[c + 1] == '}' {
            Some((c + 2, s.subrange(a, b)))
        } else {
            None
        }
    } else {
        None
    }
}

/// The placeholders of `s` from position `i` on, leftmost first and without
/// overlap: (start, end, name) for each.
pub open spec fn scan_placeholders(s: Seq<char>, i: int) -> Seq<(int, int, Seq<char>)>
    decreases s.len() - i,
{
    if i < 0 || i >= s.len() {
        Seq::empty()
    } else {
        match placeholder_at(s, i) {
            Some((e, n)) => if e > i {
                seq![(i, e, n)] + scan_placeholders(s, e)
            } else {
                Seq::empty()
            },
            None => scan_placeholders(s, i + 1),
        }
    }
}

/// The parameter names used by a template, in order of appearance.
pub open spec fn placeholder_names(s: Seq<char>) -> Seq<Seq<char>> {
    scan_placeholders(s, 0).map_values(|t: (int, int, Seq<char>)| t.2)
}

pub proof fn lemma_skip_ws(s: Seq<char>, i: int)
    requires
        0 <= i,
    ensures
        i <= skip_ws(s, i),
        skip_ws(s, i) <= s.len() || skip_ws(s, i) == i,
        forall|j: int| i <= j < skip_ws(s, i) ==> is_ws(s[j]),
        skip_ws(s, i) < s.len() ==> !is_ws(s[skip_ws(s, i)]),
    decreases s.len() - i,
{
    if 0 <= i < s.len() && is_ws(s[i]) {
        lemma_skip_ws(s, i + 1);
    }
}

pub proof fn lemma_skip_name(s: Seq<char>, i: int)
    requires
        0 <= i,
    ensures
        i <= skip_name(s, i),
        skip_name(s, i) <= s.len() || skip_name(s, i) == i,
        forall|j: int| i <= j < skip_name(s, i) ==> is_name_char(s[j]),
    decreases s.len() - i,
{
    if 0 <= i < s.len() && is_name_char(s[i]) {
        lemma_skip_name(s, i + 1);
    }
}

pub fn is_name_char_exec(c: char) -> (r: bool)
    ensures
        r == is_name_char(c),
{
    ('a' <= c && c <= 'z') || ('A' <= c && c <= 'Z') || ('0' <= c && c <= '9') || c == '_' || c
        == '-'
}

fn skip_ws_exec(s: &[char], i: usize) -> (r: usize)
    requires
        i <= s.len(),
    ensures
        r as int == skip_ws(s@, i as int),
        i <= r <= s.len(),
{
    let mut j = i;
    while j < s.len() && is_whitespace(s[j])
        invariant
            i <= j <= s.len(),
            skip_ws(s@, i as int) == skip_ws(s@, j as int),
        decreases s.len() - j,
    {
        j = j + 1;
    }
    j
}

fn skip_name_exec(s: &[char], i: usize) -> (r: usize)
    requires
        i <= s.len(),
    ensures
        r as int == skip_name(s@, i as int),
        i <= r <= s.len(),
{
    let mut j = i;
    while j < s.len() && is_name_char_exec(s[j])
        invariant
            i <= j <= s.len(),
            skip_name(s@, i as int) == skip_name(s@, j as int),
        decreases s.len() - j,
    {
        j = j + 1;
    }
    j
}

/// The placeholder starting at `i`: its end and its name.
pub fn placeholder_at_exec(s: &[char], i: usize) -> (r: Option<(usize, Vec<char>)>)
    ensures
        match r {
            Some((e, n)) => placeholder_at(s@, i as int) == Some((e as int, n@)),
            None => placeholder_at(s@, i as int) is None,
        },
        r matches Some((e, _)) ==> i < e <= s.len(),
{
    if i < s.len() && s.len() - i >= 2 && s[i] == '{' && s[i + 1] == '{' {
        let a = skip_ws_exec(s, i + 2);
        let b = skip_name_exec(s, a);
        let c = skip_ws_exec(s, b);
        if b > a && c < s.len() && s.len() - c >= 2 && s[c] == '}' && s[c + 1] == '}' {
            let name = slice_range(s, a, b);
            Some((c + 2, name))
        } else {
            None
        }
    } else {
        None
    }
}

/// The parameter names that a template uses, in order (the `{{name}}`
/// placeholders).
pub fn extract_placeholders(s: &str) -> (r: Vec<String>)
    ensures
        r.deep_view() == placeholder_names(s@),
{
    let cs = to_chars(s);
    let mut out: Vec<String> = Vec::new();
    let mut i: usize = 0;
    assert(out.deep_view() =~= Seq::<Seq<char>>::empty());
    while i < cs.len()
        invariant
            i <= cs@.len(),
            cs@ == s@,
            out.deep_view() + scan_placeholders(cs@, i as int).map_values(
                |t: (int, int, Seq<char>)| t.2,
            ) == placeholder_names(s@),
        decreases cs.len() - i,
    {
        let ghost rest = scan_placeholders(cs@, i as int);
        match placeholder_at_exec(cs.as_slice(), i) {
            Some((e, n)) => {
                let ghost old_out = out.deep_view();
                let name = from_chars(n.as_slice());
                out.push(name);
                assert(out.deep_view() =~= old_out.push(n@));
                assert(rest == seq![(i as int, e as int, n@)] + scan_placeholders(cs@, e as int));
                assert(rest.map_values(|t: (int, int, Seq<char>)| t.2) =~= seq![n@]
                    + scan_placeholders(cs@, e as int).map_values(|t: (int, int, Seq<char>)| t.2));
                assert(e <= cs.len());
                i = e;
            },
            None => {
                i = i + 1;
            },
        }
    }
    assert(scan_placeholders(cs@, i as int).map_values(|t: (int, int, Seq<char>)| t.2)
        =~= Seq::<Seq<char>>::empty());
    out
}


// ---------------------------------------------------------------------------
// Placeholder substitution
// ---------------------------------------------------------------------------

/// Substitution of every placeholder from position `i` on: the text, and the
/// last placeholder name that `args` has no value for.
pub open spec fn render_from(s: Seq<char>, i: int, args: Seq<(Seq<char>, Seq<char>)>) -> (
    Seq<char>,
    Option<Seq<char>>,
)
    decreases s.len() - i,
{
    if i < 0 || i >= s.len() {
        (Seq::empty(), None)
    } else {
        match placeholder_at(s, i) {
            Some((e, n)) => if e > i {
                let rest = render_from(s, e, args);
                match al_get(args, n) {
                    Some(v) => (v + rest.0, rest.1),
                    None => (
                        s.subrange(i, e) + rest.0,
                        if rest.1 is Some {
                            rest.1
                        } else {
                            Some(n)
                        },
                    ),
                }
            } else {
                (Seq::empty(), None)
            },
            None => {
                let rest = render_from(s, i + 1, args);
                (seq![s[i]] + rest.0, rest.1)
            },
        }
    }
}

/// A placeholder without a value.
#[derive(Debug, Clone, PartialEq, Eq)]
pub enum TemplateError {
    MissingValue { param: String },
}

impl TemplateError {
    pub open spec fn spec_message(&self) -> Seq<char> {
        match self {
            TemplateError::MissingValue { param } => "Missing value for parameter '"@ + param@
                + "'"@,
        }
    }

    pub fn message(&self) -> (r: String)
        ensures
            r@ == self.spec_message(),
    {
        match self {
            TemplateError::MissingValue { param } => {
                let mut r = String::from_str("Missing value for parameter '");
                r.append(param.as_str());
                r.append("'");
                r
            },
        }
    }
}

/// Replaces every `{{name}}` placeholder by the value of `name` in `args`;
/// fails, naming the last placeholder without a value, when any has none.
pub fn replace_placeholders(template: &str, args: &StrMap<String>) -> (r: Result<
    String,
    TemplateError,
>)
    ensures
        ({
            let (text, missing) = render_from(template@, 0, args.deep_view());
            match r {
                Ok(out) => missing is None && out@ == text,
                Err(TemplateError::MissingValue { param }) => missing == Some(param@),
            }
        }),
{
    let cs = to_chars(template);
    let ghost d = args.deep_view();
    let ghost total = render_from(cs@, 0, d);
    let mut out: Vec<char> = Vec::new();
    let mut missing: Option<Vec<char>> = None;
    let mut i: usize = 0;
    while i < cs.len()
        invariant
            i <= cs@.len(),
            cs@ == template@,
            d == args.deep_view(),
            total == render_from(cs@, 0, d),
            out@ + render_from(cs@, i as int, d).0 == total.0,
            (match render_from(cs@, i as int, d).1 {
                Some(m) => Some(m),
                None => match missing {
                    Some(m) => Some(m@),
                    None => None,
                },
            }) == total.1,
        decreases cs.len() - i,
    {
        let ghost here = render_from(cs@, i as int, d);
        match placeholder_at_exec(cs.as_slice(), i) {
            Some((e, n)) => {
                let ghost rest = render_from(cs@, e as int, d);
                let name = from_chars(n.as_slice());
                match args.get(name.as_str()) {
                    Some(v) => {
                        let vc = to_chars(v.as_str());
                        let ghost before = out@;
                        crate::text::append_chars(&mut out, vc.as_slice());
                        assert(here.0 == v@ + rest.0);
                        assert(out@ + rest.0 =~= before + here.0);
                    },
                    None => {
                        let ghost before = out@;
                        let piece = slice_range(cs.as_slice(), i, e);
                        crate::text::append_chars(&mut out, piece.as_slice());
                        assert(out@ + rest.0 =~= before + here.0);
                        missing = Some(n);
                    },
                }
                i = e;
            },
            None => {
                let ghost before = out@;
                out.push(cs[i]);
                assert(out@ + render_from(cs@, i + 1, d).0 =~= before + here.0);
                i = i + 1;
            },
        }
    }
    match missing {
        Some(m) => Err(TemplateError::MissingValue { param: from_chars(m.as_slice()) }),
        None => {
            assert(out@ =~= total.0);
            Ok(from_chars(out.as_slice()))
        },
    }
}

/// `str::replace` with a non-empty pattern: every non-overlapping occurrence,
/// leftmost first, from position `i` on.
pub open spec fn replace_from(s: Seq<char>, p: Seq<char>, r: Seq<char>, i: int) -> Seq<char>
    decreases s.len() - i,
{
    if i < 0 || i >= s.len() || p.len() == 0 {
        Seq::empty()
    } else if crate::text::match_at(s, p, i) {
        r + replace_from(s, p, r, i + p.len())
    } else {
        seq![s[i]] + replace_from(s, p, r, i + 1)
    }
}

pub open spec fn replace_all(s: Seq<char>, p: Seq<char>, r: Seq<char>) -> Seq<char> {
    replace_from(s, p, r, 0)
}

pub fn replace_all_chars(s: &[char], p: &[char], r: &[char]) -> (out: Vec<char>)
    requires
        p.len() > 0,
    ensures
        out@ == replace_all(s@, p@, r@),
{
    let mut out: Vec<char> = Vec::new();
    let mut i: usize = 0;
    while i < s.len()
        invariant
            i <= s@.len(),
            p@.len() > 0,
            out@ + replace_from(s@, p@, r@, i as int) == replace_all(s@, p@, r@),
        decreases s.len() - i,
    {
        let ghost before = out@;
        if crate::text::match_at_chars(s, p, i) {
            crate::text::append_chars(&mut out, r);
            assert(out@ + replace_from(s@, p@, r@, i + p@.len()) =~= before + replace_from(
                s@,
                p@,
                r@,
                i as int,
            ));
            i = i + p.len();
        } else {
            out.push(s[i]);
            assert(out@ + replace_from(s@, p@, r@, i + 1) =~= before + replace_from(
                s@,
                p@,
                r@,
                i as int,
            ));
            i = i + 1;
        }
    }
    assert(replace_from(s@, p@, r@, i as int) =~= Seq::<char>::empty());
    out
}

/// `to` before, between and after the characters of `s`: what replacing
/// the empty string does, since it matches at every character boundary.
pub open spec fn interleave(s: Seq<char>, to: Seq<char>) -> Seq<char>
    decreases s.len(),
{
    if s.len() == 0 {
        to
    } else {
        interleave(s.drop_last(), to) + seq![s.last()] + to
    }
}

/// `str::replace` with a string pattern.
pub open spec fn spec_replace_str(s: Seq<char>, from: Seq<char>, to: Seq<char>) -> Seq<char> {
    if from.len() == 0 {
        interleave(s, to)
    } else {
        replace_all(s, from, to)
    }
}

/// `str::replace` on strings: every occurrence of `from` replaced by `to`;
/// an empty `from` matches at every character boundary.
pub fn replace_str(s: &str, from: &str, to: &str) -> (out: String)
    ensures
        out@ == spec_replace_str(s@, from@, to@),
{
    let a = to_chars(s);
    let b = to_chars(from);
    let c = to_chars(to);
    if b.len() == 0 {
        let mut out = c.clone();
        let mut i: usize = 0;
        assert(out@ == c@);
        assert(a@.take(0) =~= Seq::<char>::empty());
        while i < a.len()
            invariant
                i <= a@.len(),
                out@ == interleave(a@.take(i as int), c@),
            decreases a.len() - i,
        {
            assert(a@.take(i + 1).drop_last() =~= a@.take(i as int));
            assert(a@.take(i + 1).last() == a@[i as int]);
            out.push(a[i]);
            crate::text::append_chars(&mut out, c.as_slice());
            assert(out@ =~= interleave(a@.take(i + 1), c@));
            i = i + 1;
        }
        assert(a@.take(a@.len() as int) =~= a@);
        return from_chars(out.as_slice());
    }
    let r = replace_all_chars(a.as_slice(), b.as_slice(), c.as_slice());
    from_chars(r.as_slice())
}

// ---------------------------------------------------------------------------
// Shell quoting
// ---------------------------------------------------------------------------

/// A quote inside single quotes becomes `'\''`.
pub open spec fn quote_piece(c: char) -> Seq<char> {
    if c == '\'' {
        seq!['\'', '\\', '\'', '\'']
    } else {
        seq![c]
    }
}

pub open spec fn quote_body(s: Seq<char>) -> Seq<char>
    decreases s.len(),
{
    if s.len() == 0 {
        Seq::empty()
    } else {
        quote_body(s.drop_last()) + quote_piece(s.last())
    }
}

/// The single-quoted shell word for `s`.
pub open spec fn spec_shell_escape(s: Seq<char>) -> Seq<char> {
    seq!['\''] + quote_body(s) + seq!['\'']
}

/// Pieces joined by a separator (`[..].join(sep)`).
pub open spec fn join_with(parts: Seq<Seq<char>>, sep: Seq<char>) -> Seq<char>
    decreases parts.len(),
{
    if parts.len() == 0 {
        Seq::empty()
    } else if parts.len() == 1 {
        parts[0]
    } else {
        join_with(parts.drop_last(), sep) + sep + parts.last()
    }
}

/// Wraps an argument in single quotes so that a POSIX shell reads it as one
/// literal word.
pub fn shell_escape(arg: &str) -> (r: String)
    ensures
        r@ == spec_shell_escape(arg@),
{
    let cs = to_chars(arg);
    let mut out: Vec<char> = Vec::new();
    out.push('\'');
    let mut i: usize = 0;
    while i < cs.len()
        invariant
            i <= cs@.len(),
            cs@ == arg@,
            out@ == seq!['\''] + quote_body(cs@.take(i as int)),
        decreases cs.len() - i,
    {
        let c = cs[i];
        assert(cs@.take(i + 1).drop_last() == cs@.take(i as int));
        if c == '\'' {
            out.push('\'');
            out.push('\\');
            out.push('\'');
            out.push('\'');
        } else {
            out.push(c);
        }
        assert(out@ =~= seq!['\''] + quote_body(cs@.take(i + 1)));
        i = i + 1;
    }
    assert(cs@.take(cs@.len() as int) == cs@);
    out.push('\'');
    assert(out@ =~= spec_shell_escape(arg@));
    from_chars(out.as_slice())
}

pub open spec fn escaped_words(args: Seq<Seq<char>>) -> Seq<Seq<char>> {
    args.map_values(|a: Seq<char>| spec_shell_escape(a))
}

/// Each argument quoted, separated by single spaces.
pub fn shell_join(args: &[String]) -> (r: String)
    ensures
        r@ == join_with(escaped_words(args.deep_view()), seq![' ']),
{
    let mut out: Vec<char> = Vec::new();
    let mut i: usize = 0;
    let ghost words = escaped_words(args.deep_view());
    assert(words.take(0) =~= Seq::<Seq<char>>::empty());
    while i < args.len()
        invariant
            i <= args@.len(),
            words == escaped_words(args.deep_view()),
            words.len() == args@.len(),
            out@ == join_with(words.take(i as int), seq![' ']),
        decreases args.len() - i,
    {
        let e = shell_escape(args[i].as_str());
        let ec = to_chars(e.as_str());
        assert(words[i as int] == ec@);
        assert(words.take(i + 1).drop_last() =~= words.take(i as int));
        if i > 0 {
            out.push(' ');
        } else {
            assert(words.take(1) =~= seq![ec@]);
        }
        crate::text::append_chars(&mut out, ec.as_slice());
        i = i + 1;
    }
    assert(words.take(args@.len() as int) =~= words);
    from_chars(out.as_slice())
}

// ---------------------------------------------------------------------------
// How a POSIX shell reads the quoted words back
// ---------------------------------------------------------------------------

/// Where a POSIX shell is while it reads a command line made of plain
/// characters, single-quoted text, backslash escapes and spaces: the words
/// read so far, the word being read, and the quoting in force.
pub struct ShellReader {
    pub words: Seq<Seq<char>>,
    pub current: Seq<char>,
    pub in_word: bool,
    pub quoted: bool,
    pub escaped: bool,
}

/// The reader before any character.
pub open spec fn reader_start() -> ShellReader {
    ShellReader { words: Seq::empty(), current: Seq::empty(), in_word: false, quoted: false, escaped: false }
}

/// One character: inside single quotes everything but `'` is literal; a
/// backslash outside quotes makes the next character literal; an unquoted
/// space ends the word being read.
pub open spec fn reader_step(r: ShellReader, c: char) -> ShellReader {
    if r.escaped {
        ShellReader { current: r.current.push(c), in_word: true, escaped: false, ..r }
    } else if r.quoted {
        if c == '\'' {
            ShellReader { quoted: false, ..r }
        } else {
            ShellReader { current: r.current.push(c), ..r }
        }
    } else if c == '\'' {
        ShellReader { quoted: true, in_word: true, ..r }
    } else if c == '\\' {
        ShellReader { escaped: true, in_word: true, ..r }
    } else if c == ' ' {
        if r.in_word {
            ShellReader { words: r.words.push(r.current), current: Seq::empty(), in_word: false, ..r }
        } else {
            r
        }
    } else {
        ShellReader { current: r.current.push(c), in_word: true, ..r }
    }
}

/// The reader after the characters of `s`.
pub open spec fn read_chars(r: ShellReader, s: Seq<char>) -> ShellReader
    decreases s.len(),
{
    if s.len() == 0 {
        r
    } else {
        reader_step(read_chars(r, s.drop_last()), s.last())
    }
}

/// The words a POSIX shell reads from a command line of this kind.
pub open spec fn shell_words(line: Seq<char>) -> Seq<Seq<char>> {
    let r = read_chars(reader_start(), line);
    if r.in_word {
        r.words.push(r.current)
    } else {
        r.words
    }
}

pub proof fn lemma_read_concat(r: ShellReader, a: Seq<char>, b: Seq<char>)
    ensures
        read_chars(r, a + b) == read_chars(read_chars(r, a), b),
    decreases b.len(),
{
    if b.len() == 0 {
        assert(a + b =~= a);
    } else {
        assert((a + b).drop_last() =~= a + b.drop_last());
        assert((a + b).last() == b.last());
        lemma_read_concat(r, a, b.drop_last());
    }
}

pub proof fn lemma_read_push(r: ShellReader, s: Seq<char>, c: char)
    ensures
        read_chars(r, s.push(c)) == reader_step(read_chars(r, s), c),
{
    assert(s.push(c).drop_last() =~= s);
}

/// Inside single quotes, a quoted body adds exactly its text to the word.
pub proof fn lemma_read_quote_body(r: ShellReader, x: Seq<char>)
    requires
        r.quoted,
        !r.escaped,
        r.in_word,
    ensures
        read_chars(r, quote_body(x)) == (ShellReader { current: r.current + x, ..r }),
    decreases x.len(),
{
    if x.len() == 0 {
        assert(quote_body(x) =~= Seq::<char>::empty());
        assert(r.current + x =~= r.current);
    } else {
        let xs = x.drop_last();
        let c = x.last();
        lemma_read_quote_body(r, xs);
        lemma_read_concat(r, quote_body(xs), quote_piece(c));
        let mid = ShellReader { current: r.current + xs, ..r };
        assert(xs.push(c) =~= x);
        let p0 = Seq::<char>::empty();
        assert(read_chars(mid, p0) == mid);
        if c == '\'' {
            let p1 = p0.push('\'');
            let p2 = p1.push('\\');
            let p3 = p2.push('\'');
            let p4 = p3.push('\'');
            assert(quote_piece(c) =~= p4);
            lemma_read_push(mid, p0, '\'');
            lemma_read_push(mid, p1, '\\');
            lemma_read_push(mid, p2, '\'');
            lemma_read_push(mid, p3, '\'');
            assert(mid.current.push('\'') =~= r.current + x);
        } else {
            assert(quote_piece(c) =~= p0.push(c));
            lemma_read_push(mid, p0, c);
            assert(mid.current.push(c) =~= r.current + x);
        }
    }
}

/// Between words, a quoted argument is read as one whole word holding the
/// argument's text.
pub proof fn lemma_read_escaped(r: ShellReader, a: Seq<char>)
    requires
        !r.quoted,
        !r.escaped,
        !r.in_word,
        r.current == Seq::<char>::empty(),
    ensures
        read_chars(r, spec_shell_escape(a)) == (ShellReader { current: a, in_word: true, ..r }),
{
    let p0 = Seq::<char>::empty();
    let open_q = ShellReader { quoted: true, in_word: true, ..r };
    assert(read_chars(r, p0) == r);
    lemma_read_push(r, p0, '\'');
    assert(p0.push('\'') =~= seq!['\'']);
    lemma_read_concat(r, seq!['\''], quote_body(a));
    lemma_read_quote_body(open_q, a);
    assert(r.current + a =~= a);
    let body = seq!['\''] + quote_body(a);
    assert(spec_shell_escape(a) =~= body.push('\''));
    lemma_read_push(r, body, '\'');
}

pub proof fn lemma_read_joined(args: Seq<Seq<char>>)
    requires
        args.len() > 0,
    ensures
        read_chars(reader_start(), join_with(escaped_words(args), seq![' '])) == (ShellReader {
            words: args.drop_last(),
            current: args.last(),
            in_word: true,
            quoted: false,
            escaped: false,
        }),
    decreases args.len(),
{
    let ws = escaped_words(args);
    if args.len() == 1 {
        assert(args.drop_last() =~= Seq::<Seq<char>>::empty());
        lemma_read_escaped(reader_start(), args[0]);
    } else {
        let prev = args.drop_last();
        assert(escaped_words(prev) =~= ws.drop_last());
        lemma_read_joined(prev);
        let j = join_with(ws.drop_last(), seq![' ']);
        lemma_read_push(reader_start(), j, ' ');
        assert(j + seq![' '] =~= j.push(' '));
        let after_space = ShellReader {
            words: prev,
            current: Seq::empty(),
            in_word: false,
            quoted: false,
            escaped: false,
        };
        assert(prev.drop_last().push(prev.last()) =~= prev);
        assert(read_chars(reader_start(), j + seq![' ']) == after_space);
        lemma_read_concat(reader_start(), j + seq![' '], ws.last());
        lemma_read_escaped(after_space, args.last());
    }
}

/// A command built by `shell_join` is read by a POSIX shell as exactly the
/// arguments it was built from, one word each, whatever characters they hold.
pub proof fn law_shell_join_reads_back(args: Seq<Seq<char>>)
    ensures
        shell_words(join_with(escaped_words(args), seq![' '])) == args,
{
    if args.len() == 0 {
        assert(escaped_words(args) =~= Seq::<Seq<char>>::empty());
        assert(shell_words(Seq::<char>::empty()) == Seq::<Seq<char>>::empty());
    } else {
        lemma_read_joined(args);
        assert(args.drop_last().push(args.last()) =~= args);
    }
}

/// A single escaped argument is read back as that one argument.
pub proof fn law_shell_escape_reads_back(arg: Seq<char>)
    ensures
        shell_words(spec_shell_escape(arg)) == seq![arg],
{
    lemma_read_escaped(reader_start(), arg);
    assert(Seq::<Seq<char>>::empty().push(arg) =~= seq![arg]);
}

// ---------------------------------------------------------------------------
// Parameter validation rules
// ---------------------------------------------------------------------------

pub open spec fn is_ascii_alnum(c: char) -> bool {
    ('a' <= c && c <= 'z') || ('A' <= c && c <= 'Z') || ('0' <= c && c <= '9')
}

pub open spec fn strict_char(c: char) -> bool {
    is_ascii_alnum(c) || c == '-'
}

pub open spec fn path_char(c: char) -> bool {
    is_ascii_alnum(c) || c == '/' || c == '.' || c == '-' || c == '_'
}

/// Whether `value` passes the validation rule `rule`: `strict` (letters,
/// digits, `-`), `path` (also `/`, `.`, `_`), `permissive` (anything); an
/// unknown rule rejects everything.
pub open spec fn spec_validate_param(value: Seq<char>, rule: Seq<char>) -> bool {
    if rule == "strict"@ {
        value.len() > 0 && forall|i: int| 0 <= i < value.len() ==> strict_char(#[trigger] value[i])
    } else if rule == "path"@ {
        value.len() > 0 && forall|i: int| 0 <= i < value.len() ==> path_char(#[trigger] value[i])
    } else {
        rule == "permissive"@
    }
}

/// A character a POSIX shell gives a meaning of its own: separators,
/// quotes, escapes, redirections, expansions, globs and comments.
pub open spec fn shell_special(c: char) -> bool {
    c == ' ' || c == '\t' || c == '\n' || c == '\r' || c == ';' || c == '|' || c == '&' || c == '$'
        || c == '`' || c == '\'' || c == '"' || c == '\\' || c == '<' || c == '>' || c == '('
        || c == ')' || c == '{' || c == '}' || c == '[' || c == ']' || c == '*' || c == '?' || c
        == '!' || c == '#' || c == '~'
}

/// A value accepted by the `strict` or `path` rule holds no character a
/// shell treats specially, so filled into a command it stays one plain word.
pub proof fn law_checked_values_are_shell_safe(value: Seq<char>, rule: Seq<char>)
    requires
        spec_validate_param(value, rule),
        rule != "permissive"@,
    ensures
        forall|i: int| 0 <= i < value.len() ==> !shell_special(#[trigger] value[i]),
{
}

pub fn validate_param_value(value: &str, rule: &str) -> (r: bool)
    ensures
        r == spec_validate_param(value@, rule@),
{
    let v = to_chars(value);
    let rc = to_chars(rule);
    let strict = to_chars("strict");
    let path = to_chars("path");
    let permissive = to_chars("permissive");
    if crate::text::chars_eq(rc.as_slice(), strict.as_slice()) {
        if v.len() == 0 {
            return false;
        }
        let mut i: usize = 0;
        while i < v.len()
            invariant
                i <= v@.len(),
                v@ == value@,
                rule@ == "strict"@,
                forall|j: int| 0 <= j < i ==> strict_char(#[trigger] v@[j]),
            decreases v.len() - i,
        {
            let c = v[i];
            if !(('a' <= c && c <= 'z') || ('A' <= c && c <= 'Z') || ('0' <= c && c <= '9') || c
                == '-') {
                return false;
            }
            i = i + 1;
        }
        true
    } else if crate::text::chars_eq(rc.as_slice(), path.as_slice()) {
        if v.len() == 0 {
            return false;
        }
        let mut i: usize = 0;
        while i < v.len()
            invariant
                i <= v@.len(),
                v@ == value@,
                rule@ != "strict"@,
                rule@ == "path"@,
                forall|j: int| 0 <= j < i ==> path_char(#[trigger] v@[j]),
            decreases v.len() - i,
        {
            let c = v[i];
            if !(('a' <= c && c <= 'z') || ('A' <= c && c <= 'Z') || ('0' <= c && c <= '9') || c
                == '/' || c == '.' || c == '-' || c == '_') {
                return false;
            }
            i = i + 1;
        }
        true
    } else {
        crate::text::chars_eq(rc.as_slice(), permissive.as_slice())
    }
}


proof fn lemma_skip_ws_shift(x: Seq<char>, t: Seq<char>, j: int)
    requires
        0 <= j,
    ensures
        skip_ws(x + t, x.len() + j) == x.len() + skip_ws(t, j),
    decreases t.len() - j,
{
    let s = x + t;
    if j < t.len() {
        assert(s[x.len() + j] == t[j]);
        if is_ws(t[j]) {
            lemma_skip_ws_shift(x, t, j + 1);
        }
    }
}

proof fn lemma_skip_name_shift(x: Seq<char>, t: Seq<char>, j: int)
    requires
        0 <= j,
    ensures
        skip_name(x + t, x.len() + j) == x.len() + skip_name(t, j),
    decreases t.len() - j,
{
    let s = x + t;
    if j < t.len() {
        assert(s[x.len() + j] == t[j]);
        if is_name_char(t[j]) {
            lemma_skip_name_shift(x, t, j + 1);
        }
    }
}

proof fn lemma_placeholder_at_shift(x: Seq<char>, t: Seq<char>, j: int)
    requires
        0 <= j,
    ensures
        placeholder_at(x + t, x.len() + j) == match placeholder_at(t, j) {
            Some((e, n)) => Some((x.len() + e, n)),
            None => None,
        },
{
    let s = x + t;
    let k = x.len() + j;
    if j + 1 < t.len() {
        assert(s[k] == t[j]);
        assert(s[k + 1] == t[j + 1]);
    }
    if j + 1 < t.len() && t[j] == '{' && t[j + 1] == '{' {
        lemma_skip_ws_shift(x, t, j + 2);
        let a = skip_ws(t, j + 2);
        lemma_skip_ws(t, j + 2);
        lemma_skip_name_shift(x, t, a);
        let b = skip_name(t, a);
        lemma_skip_name(t, a);
        lemma_skip_ws_shift(x, t, b);
        let c = skip_ws(t, b);
        lemma_skip_ws(t, b);
        if c + 1 < t.len() {
            assert(s[x.len() + c] == t[c]);
            assert(s[x.len() + c + 1] == t[c + 1]);
        }
        if b > a {
            assert(s.subrange(x.len() + a, x.len() + b) =~= t.subrange(a, b));
        }
    }
}

/// Substitution reads a template from a position on only: what comes before
/// does not change it.
proof fn lemma_render_from_shift(x: Seq<char>, t: Seq<char>, j: int, args: Seq<(Seq<char>, Seq<char>)>)
    requires
        0 <= j,
    ensures
        render_from(x + t, x.len() + j, args) == render_from(t, j, args),
    decreases t.len() - j,
{
    let s = x + t;
    let k = x.len() + j;
    if j < t.len() {
        lemma_placeholder_at_shift(x, t, j);
        match placeholder_at(t, j) {
            Some((e, n)) => {
                if e > j {
                    lemma_render_from_shift(x, t, e, args);
                    assert(s.subrange(k, x.len() + e) =~= t.subrange(j, e));
                }
            },
            None => {
                assert(s[k] == t[j]);
                lemma_render_from_shift(x, t, j + 1, args);
            },
        }
    }
}

proof fn lemma_skip_name_run(s: Seq<char>, i: int, e: int)
    requires
        0 <= i <= e <= s.len(),
        forall|k: int| i <= k < e ==> is_name_char(#[trigger] s[k]),
        e < s.len() ==> !is_name_char(s[e]),
    ensures
        skip_name(s, i) == e,
    decreases e - i,
{
    if i < e {
        lemma_skip_name_run(s, i + 1, e);
    }
}

/// A character other than `{` at the front of a template is copied as it
/// is, and the rest is filled in on its own.
pub proof fn law_render_copies_plain_text(c: char, t: Seq<char>, args: Seq<(Seq<char>, Seq<char>)>)
    requires
        c != '{',
    ensures
        render_from(seq![c] + t, 0, args) == (seq![c] + render_from(t, 0, args).0, render_from(t, 0, args).1),
{
    let s = seq![c] + t;
    assert(s[0] == c);
    lemma_render_from_shift(seq![c], t, 0, args);
}

/// A placeholder `{{name}}` at the front of a template whose name has a
/// value becomes that value, and the rest of the template is filled in on
/// its own: every placeholder is filled, not only the first.
pub proof fn law_render_fills_each_placeholder(
    name: Seq<char>,
    value: Seq<char>,
    t: Seq<char>,
    args: Seq<(Seq<char>, Seq<char>)>,
)
    requires
        name.len() > 0,
        forall|k: int| 0 <= k < name.len() ==> is_name_char(#[trigger] name[k]),
        al_get(args, name) == Some(value),
    ensures
        ({
            let s = seq!['{', '{'] + name + seq!['}', '}'] + t;
            render_from(s, 0, args) == (value + render_from(t, 0, args).0, render_from(t, 0, args).1)
        }),
{
    let open = seq!['{', '{'] + name + seq!['}', '}'];
    let s = open + t;
    let n: int = name.len() as int;
    assert(s[0] == '{');
    assert(s[1] == '{');
    assert(s[2] == name[0]);
    assert(!is_ws(name[0]));
    assert(skip_ws(s, 2) == 2);
    assert forall|k: int| 2 <= k < 2 + n implies is_name_char(#[trigger] s[k]) by {
        assert(s[k] == name[k - 2]);
    }
    assert(s[2 + n] == '}');
    assert(s[3 + n] == '}');
    lemma_skip_name_run(s, 2, 2 + n);
    assert(skip_ws(s, 2 + n) == 2 + n);
    assert(s.subrange(2, 2 + n) =~= name);
    assert(placeholder_at(s, 0) == Some((n + 4, name)));
    assert(open.len() == n + 4);
    lemma_render_from_shift(open, t, 0, args);
}

/// A placeholder `{{name}}` at the front of a template whose name has no
/// value is kept as written, and the name is reported missing unless a
/// later placeholder is missing too (the last missing one is reported).
pub proof fn law_render_keeps_unfilled_placeholder(
    name: Seq<char>,
    t: Seq<char>,
    args: Seq<(Seq<char>, Seq<char>)>,
)
    requires
        name.len() > 0,
        forall|k: int| 0 <= k < name.len() ==> is_name_char(#[trigger] name[k]),
        al_get(args, name) is None,
    ensures
        ({
            let open = seq!['{', '{'] + name + seq!['}', '}'];
            let rest = render_from(t, 0, args);
            render_from(open + t, 0, args) == (open + rest.0, if rest.1 is Some {
                rest.1
            } else {
                Some(name)
            })
        }),
{
    let open = seq!['{', '{'] + name + seq!['}', '}'];
    let s = open + t;
    let n: int = name.len() as int;
    assert(s[0] == '{');
    assert(s[1] == '{');
    assert(s[2] == name[0]);
    assert(!is_ws(name[0]));
    assert(skip_ws(s, 2) == 2);
    assert forall|k: int| 2 <= k < 2 + n implies is_name_char(#[trigger] s[k]) by {
        assert(s[k] == name[k - 2]);
    }
    assert(s[2 + n] == '}');
    assert(s[3 + n] == '}');
    lemma_skip_name_run(s, 2, 2 + n);
    assert(skip_ws(s, 2 + n) == 2 + n);
    assert(s.subrange(2, 2 + n) =~= name);
    assert(placeholder_at(s, 0) == Some((n + 4, name)));
    assert(open.len() == n + 4);
    lemma_render_from_shift(open, t, 0, args);
    assert(s.subrange(0, n + 4) =~= open);
}

} // verus!
