//! Decisions of the command line: when a human must confirm at the
//! terminal, and how the `json` command reads its argument.

use vstd::prelude::*;
use crate::text::{from_chars, starts_with, starts_with_chars, to_chars, trim, trim_chars};
use crate::watch::nonempty_trimmed;

verus! {

/// An explicit configuration path, ignoring the global file, and trusting
/// a file all need a person at the terminal: an agent must not do them.
pub fn requires_human(config_given: bool, no_global: bool, is_trust_command: bool) -> (r: bool)
    ensures
        r == (config_given || no_global || is_trust_command),
{
    config_given || no_global || is_trust_command
}

/// How the `json` command reads its optional argument.
#[derive(Debug, Clone, PartialEq, Eq)]
pub enum JsonArguments {
    /// No argument: an empty object.
    Empty,
    /// A JSON object, to be parsed.
    Object(String),
    /// A comma-separated host list: `{"hosts": [...]}`.
    Hosts(Vec<String>),
}

/// A trimmed argument that starts with `{` is JSON; anything else is a
/// comma-separated list of hosts, blank entries dropped.
pub fn json_arguments(arguments: Option<&str>) -> (r: JsonArguments)
    ensures
        match arguments {
            None => r == JsonArguments::Empty,
            Some(a) => if starts_with(trim(a@), seq!['{']) {
                r matches JsonArguments::Object(t) && t@ == trim(a@)
            } else {
                r matches JsonArguments::Hosts(h) && h.deep_view() == nonempty_trimmed(
                    crate::text::split_char(trim(a@), ','),
                )
            },
        },
{
    match arguments {
        None => JsonArguments::Empty,
        Some(a) => {
            let cs = to_chars(a);
            let t = trim_chars(cs.as_slice());
            let brace: Vec<char> = vec!['{'];
            assert(brace@ =~= seq!['{']);
            if starts_with_chars(t.as_slice(), brace.as_slice()) {
                JsonArguments::Object(from_chars(t.as_slice()))
            } else {
                let text = from_chars(t.as_slice());
                JsonArguments::Hosts(split_hosts(text.as_str()))
            }
        },
    }
}

fn split_hosts(text: &str) -> (r: Vec<String>)
    ensures
        r.deep_view() == nonempty_trimmed(crate::text::split_char(text@, ',')),
{
    let cs = to_chars(text);
    let pieces = crate::text::split_char_chars(cs.as_slice(), ',');
    let ghost p = crate::text::vv(pieces@);
    let mut r: Vec<String> = Vec::new();
    let mut i: usize = 0;
    assert(p.take(0) =~= Seq::<Seq<char>>::empty());
    assert(r.deep_view() =~= Seq::<Seq<char>>::empty());
    while i < pieces.len()
        invariant
            p == crate::text::vv(pieces@),
            i <= p.len(),
            r.deep_view() == nonempty_trimmed(p.take(i as int)),
        decreases pieces.len() - i,
    {
        assert(p.take(i + 1).drop_last() =~= p.take(i as int));
        assert(p.take(i + 1).last() == pieces@[i as int]@);
        let piece = trim_chars(pieces[i].as_slice());
        if piece.len() > 0 {
            let ghost before = r.deep_view();
            r.push(from_chars(piece.as_slice()));
            assert(r.deep_view() =~= before.push(piece@));
        }
        i = i + 1;
    }
    assert(p.take(p.len() as int) =~= p);
    r
}

} // verus!
