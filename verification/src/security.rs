//! The ledger of trusted project-local configuration files: each entry is
//! `sha256:canonical-path`, and a file is trusted while its content still
//! has the recorded hash.

use vstd::prelude::*;
use crate::outside::{sha256_digest, spec_sha256};
use crate::text::{
    append_chars, find_char, find_char_chars, from_chars, is_ws, slice_range, starts_with,
    to_chars, trim, trim_chars,
};

verus! {

pub open spec fn hex_digits() -> Seq<char> {
    seq!['0', '1', '2', '3', '4', '5', '6', '7', '8', '9', 'a', 'b', 'c', 'd', 'e', 'f']
}

pub open spec fn hex_digit(d: nat) -> char {
    hex_digits()[d as int]
}

/// Lower-case hexadecimal, two digits per byte (`{:x}` of a digest).
pub open spec fn hex_lower(bytes: Seq<u8>) -> Seq<char>
    decreases bytes.len(),
{
    if bytes.len() == 0 {
        Seq::empty()
    } else {
        hex_lower(bytes.drop_last()) + seq![
            hex_digit((bytes.last() / 16) as nat),
            hex_digit((bytes.last() % 16) as nat),
        ]
    }
}

fn hex_digit_exec(d: u8) -> (c: char)
    requires
        d < 16,
    ensures
        c == hex_digit(d as nat),
{
    let table: Vec<char> = vec![
        '0', '1', '2', '3', '4', '5', '6', '7', '8', '9', 'a', 'b', 'c', 'd', 'e', 'f',
    ];
    assert(table@ =~= hex_digits());
    table[d as usize]
}

/// The SHA-256 digest of `content` in lower-case hexadecimal.
pub fn sha256_hex(content: &[u8]) -> (r: String)
    ensures
        r@ == hex_lower(spec_sha256(content@)),
        r@.len() == 64,
{
    let d = sha256_digest(content);
    let mut out: Vec<char> = Vec::new();
    let mut i: usize = 0;
    assert(d@.take(0) =~= Seq::<u8>::empty());
    while i < d.len()
        invariant
            i <= d@.len(),
            d@.len() == 32,
            out@ == hex_lower(d@.take(i as int)),
            out@.len() == 2 * i,
        decreases d.len() - i,
    {
        let b = d[i];
        assert(d@.take(i + 1).drop_last() =~= d@.take(i as int));
        out.push(hex_digit_exec(b / 16));
        out.push(hex_digit_exec(b % 16));
        assert(out@ =~= hex_lower(d@.take(i + 1)));
        i = i + 1;
    }
    assert(d@.take(32) =~= d@);
    from_chars(out.as_slice())
}

/// A ledger line that carries an entry: not blank and not a `#` comment.
pub open spec fn is_entry(line: Seq<char>) -> bool {
    let t = trim(line);
    t.len() > 0 && !starts_with(t, seq!['#'])
}

/// The path an entry records: what follows its first colon.
pub open spec fn entry_path(line: Seq<char>) -> Option<Seq<char>> {
    match find_char(line, ':') {
        Some(pos) => Some(line.skip(pos + 1)),
        None => None,
    }
}

/// The entries kept when `path` is trusted anew: every entry except those
/// for `path`, in order.
pub open spec fn kept_entries(lines: Seq<Seq<char>>, path: Seq<char>) -> Seq<Seq<char>>
    decreases lines.len(),
{
    if lines.len() == 0 {
        Seq::empty()
    } else {
        let prev = kept_entries(lines.drop_last(), path);
        let l = lines.last();
        if is_entry(l) && entry_path(l) != Some(path) {
            prev.push(l)
        } else {
            prev
        }
    }
}

/// The entry that records `hash` for `path`.
pub open spec fn ledger_entry(hash: Seq<char>, path: Seq<char>) -> Seq<char> {
    hash + seq![':'] + path
}

/// The ledger after trusting `path` with content hash `hash`.
pub open spec fn spec_updated_ledger(lines: Seq<Seq<char>>, hash: Seq<char>, path: Seq<char>) -> Seq<
    Seq<char>,
> {
    kept_entries(lines, path).push(ledger_entry(hash, path))
}

/// Whether a ledger line, trimmed, records exactly `hash` for `path`.
pub open spec fn line_trusts(line: Seq<char>, hash: Seq<char>, path: Seq<char>) -> bool {
    let t = trim(line);
    is_entry(line) && match find_char(t, ':') {
        Some(pos) => t.take(pos) == hash && t.skip(pos + 1) == path,
        None => false,
    }
}

pub open spec fn spec_ledger_trusts(lines: Seq<Seq<char>>, hash: Seq<char>, path: Seq<char>) -> bool {
    exists|i: int| 0 <= i < lines.len() && line_trusts(#[trigger] lines[i], hash, path)
}

fn is_entry_exec(line: &[char]) -> (r: bool)
    ensures
        r == is_entry(line@),
{
    let t = trim_chars(line);
    let hash_mark: Vec<char> = vec!['#'];
    assert(hash_mark@ =~= seq!['#']);
    t.len() > 0 && !crate::text::starts_with_chars(t.as_slice(), hash_mark.as_slice())
}

/// The ledger lines after trusting `canonical_path` with content hash `hash`:
/// blank and comment lines and earlier entries for the path are dropped, and
/// the new entry is appended.
pub fn updated_ledger(lines: &Vec<String>, hash: &str, canonical_path: &str) -> (r: Vec<String>)
    ensures
        r.deep_view() == spec_updated_ledger(lines.deep_view(), hash@, canonical_path@),
{
    let ghost ls = lines.deep_view();
    let pc = to_chars(canonical_path);
    let mut out: Vec<String> = Vec::new();
    let mut i: usize = 0;
    assert(ls.take(0) =~= Seq::<Seq<char>>::empty());
    assert(out.deep_view() =~= Seq::<Seq<char>>::empty());
    while i < lines.len()
        invariant
            ls == lines.deep_view(),
            i <= ls.len(),
            pc@ == canonical_path@,
            out.deep_view() == kept_entries(ls.take(i as int), canonical_path@),
        decreases lines.len() - i,
    {
        assert(ls.take(i + 1).drop_last() =~= ls.take(i as int));
        assert(ls.take(i + 1).last() == lines@[i as int]@);
        let l = to_chars(lines[i].as_str());
        if is_entry_exec(l.as_slice()) {
            let same = match find_char_chars(l.as_slice(), ':') {
                Some(pos) => {
                    proof {
                        crate::text::lemma_find_from(l@, seq![':'], 0);
                        assert(crate::text::match_at(l@, seq![':'], pos as int));
                        assert(pos < l@.len());
                    }
                    assert(l@.len() == l.len());
                    let rest = slice_range(l.as_slice(), pos + 1, l.len());
                    assert(rest@ =~= l@.skip(pos + 1));
                    crate::text::chars_eq(rest.as_slice(), pc.as_slice())
                },
                None => false,
            };
            if !same {
                let ghost before = out.deep_view();
                out.push(lines[i].clone());
                assert(out.deep_view() =~= before.push(l@));
            }
        }
        i = i + 1;
    }
    assert(ls.take(ls.len() as int) =~= ls);
    let mut entry = to_chars(hash);
    entry.push(':');
    append_chars(&mut entry, pc.as_slice());
    assert(entry@ =~= ledger_entry(hash@, canonical_path@));
    let ghost before = out.deep_view();
    out.push(from_chars(entry.as_slice()));
    assert(out.deep_view() =~= before.push(ledger_entry(hash@, canonical_path@)));
    out
}

fn line_trusts_exec(line: &[char], hash: &[char], path: &[char]) -> (r: bool)
    ensures
        r == line_trusts(line@, hash@, path@),
{
    if !is_entry_exec(line) {
        return false;
    }
    let t = trim_chars(line);
    match find_char_chars(t.as_slice(), ':') {
        Some(pos) => {
            proof {
                crate::text::lemma_find_from(t@, seq![':'], 0);
                assert(crate::text::match_at(t@, seq![':'], pos as int));
                assert(pos < t@.len());
            }
            assert(t@.len() == t.len());
            let h = slice_range(t.as_slice(), 0, pos);
            let p = slice_range(t.as_slice(), pos + 1, t.len());
            assert(h@ =~= t@.take(pos as int));
            assert(p@ =~= t@.skip(pos + 1));
            crate::text::chars_eq(h.as_slice(), hash) && crate::text::chars_eq(p.as_slice(), path)
        },
        None => false,
    }
}

/// Whether the ledger records `hash` for `canonical_path`.
pub fn ledger_trusts(lines: &Vec<String>, hash: &str, canonical_path: &str) -> (r: bool)
    ensures
        r == spec_ledger_trusts(lines.deep_view(), hash@, canonical_path@),
{
    let hc = to_chars(hash);
    let pc = to_chars(canonical_path);
    let mut i: usize = 0;
    while i < lines.len()
        invariant
            i <= lines@.len(),
            hc@ == hash@,
            pc@ == canonical_path@,
            forall|j: int|
                0 <= j < i ==> !line_trusts(#[trigger] lines.deep_view()[j], hash@, canonical_path@),
        decreases lines.len() - i,
    {
        let l = to_chars(lines[i].as_str());
        assert(lines.deep_view()[i as int] == l@);
        if line_trusts_exec(l.as_slice(), hc.as_slice(), pc.as_slice()) {
            return true;
        }
        i = i + 1;
    }
    false
}

/// Text made of lower-case hexadecimal digits only, as digests are written.
pub open spec fn is_hex_text(h: Seq<char>) -> bool {
    forall|i: int| 0 <= i < h.len() ==> hex_digits().contains(#[trigger] h[i])
}

proof fn lemma_hex_char(c: char)
    requires
        hex_digits().contains(c),
    ensures
        !is_ws(c),
        c != ':',
        c != '#',
{
    let k = choose|k: int| 0 <= k < 16 && hex_digits()[k] == c;
    assert(0 <= k < 16);
}

proof fn lemma_first_colon(s: Seq<char>, k: int)
    requires
        0 <= k < s.len(),
        s[k] == ':',
        forall|j: int| 0 <= j < k ==> s[j] != ':',
    ensures
        find_char(s, ':') == Some(k),
{
    crate::text::lemma_find_from(s, seq![':'], 0);
    assert(s.subrange(k, k + 1) =~= seq![':']);
    assert(crate::text::match_at(s, seq![':'], k));
    assert forall|j: int| 0 <= j < k implies !crate::text::match_at(s, seq![':'], j) by {
        if crate::text::match_at(s, seq![':'], j) {
            assert(s.subrange(j, j + 1)[0] == s[j]);
        }
    }
}

/// Once a file is trusted, the ledger trusts it: the new entry records its
/// hash and path (a hash in hexadecimal; a path that does not end in white
/// space, which reading a line would trim away).
pub proof fn law_trusted_after_trusting(lines: Seq<Seq<char>>, hash: Seq<char>, path: Seq<char>)
    requires
        hash.len() > 0,
        is_hex_text(hash),
        path.len() == 0 || !is_ws(path.last()),
    ensures
        spec_ledger_trusts(spec_updated_ledger(lines, hash, path), hash, path),
{
    let e = ledger_entry(hash, path);
    let r = spec_updated_ledger(lines, hash, path);
    let n = hash.len() as int;
    lemma_hex_char(hash[0]);
    assert(e[0] == hash[0]);
    assert(crate::text::trim_start(e) == e);
    if path.len() > 0 {
        assert(e.last() == path.last());
    } else {
        assert(e.last() == ':');
    }
    assert(crate::text::trim_end(e) == e);
    assert(trim(e) == e);
    assert forall|j: int| 0 <= j < n implies e[j] != ':' by {
        assert(e[j] == hash[j]);
        lemma_hex_char(hash[j]);
    }
    assert(e[n] == ':');
    lemma_first_colon(e, n);
    assert(e.take(n) =~= hash);
    assert(e.skip(n + 1) =~= path);
    assert(!starts_with(e, seq!['#'])) by {
        if starts_with(e, seq!['#']) {
            assert(e.take(1)[0] == e[0]);
        }
    }
    assert(line_trusts(r[r.len() - 1], hash, path));
}

pub proof fn lemma_kept_entries(lines: Seq<Seq<char>>, path: Seq<char>)
    ensures
        forall|i: int|
            0 <= i < kept_entries(lines, path).len() ==> is_entry(
                #[trigger] kept_entries(lines, path)[i],
            ) && entry_path(kept_entries(lines, path)[i]) != Some(path),
    decreases lines.len(),
{
    if lines.len() > 0 {
        lemma_kept_entries(lines.drop_last(), path);
    }
}

/// Trusting a file replaces its entry: afterwards the ledger holds exactly
/// one entry for the path, the new one at the end.
pub proof fn law_one_entry_per_path(lines: Seq<Seq<char>>, hash: Seq<char>, path: Seq<char>)
    ensures
        ({
            let r = spec_updated_ledger(lines, hash, path);
            &&& r.last() == ledger_entry(hash, path)
            &&& forall|i: int| 0 <= i < r.len() - 1 ==> entry_path(#[trigger] r[i]) != Some(path)
        }),
{
    lemma_kept_entries(lines, path);
    let k = kept_entries(lines, path);
    let r = spec_updated_ledger(lines, hash, path);
    assert forall|i: int| 0 <= i < r.len() - 1 implies entry_path(#[trigger] r[i]) != Some(path) by {
        assert(r[i] == k[i]);
    }
}

proof fn lemma_trim_start_at(s: Seq<char>) -> (a: int)
    ensures
        0 <= a <= s.len(),
        crate::text::trim_start(s) == s.skip(a),
        forall|j: int| 0 <= j < a ==> is_ws(#[trigger] s[j]),
    decreases s.len(),
{
    if s.len() > 0 && is_ws(s[0]) {
        let a0 = lemma_trim_start_at(s.drop_first());
        assert(s.drop_first().skip(a0) =~= s.skip(a0 + 1));
        assert forall|j: int| 0 <= j < a0 + 1 implies is_ws(#[trigger] s[j]) by {
            if j > 0 {
                assert(s[j] == s.drop_first()[j - 1]);
            }
        }
        a0 + 1
    } else {
        assert(s.skip(0) =~= s);
        0
    }
}

proof fn lemma_trim_end_at(s: Seq<char>) -> (b: int)
    ensures
        0 <= b <= s.len(),
        crate::text::trim_end(s) == s.take(b),
        forall|j: int| b <= j < s.len() ==> is_ws(#[trigger] s[j]),
    decreases s.len(),
{
    if s.len() > 0 && is_ws(s.last()) {
        let b0 = lemma_trim_end_at(s.drop_last());
        assert(s.drop_last().take(b0) =~= s.take(b0));
        assert forall|j: int| b0 <= j < s.len() implies is_ws(#[trigger] s[j]) by {
            if j < s.len() - 1 {
                assert(s[j] == s.drop_last()[j]);
            }
        }
        b0
    } else {
        assert(s.take(s.len() as int) =~= s);
        s.len() as int
    }
}

/// A line that trusts `path2` names, after its first colon, `path2` and
/// possibly trailing white space; so a path that does not end in white
/// space and differs from `path2` is not the path it records.
proof fn lemma_trusting_line_path(line: Seq<char>, hash2: Seq<char>, path2: Seq<char>, path: Seq<char>)
    requires
        line_trusts(line, hash2, path2),
        path != path2,
        path.len() == 0 || !is_ws(path.last()),
    ensures
        entry_path(line) != Some(path),
{
    let a = lemma_trim_start_at(line);
    let u = line.skip(a);
    let b = lemma_trim_end_at(u);
    let t = trim(line);
    assert(t == u.take(b));
    let q = find_char(t, ':')->Some_0;
    crate::text::lemma_find_from(t, seq![':'], 0);
    assert(t.subrange(q, q + 1)[0] == t[q]);
    assert(t[q] == ':');
    assert(line[a + q] == t[q]);
    assert forall|j: int| 0 <= j < a + q implies line[j] != ':' by {
        if j < a {
            assert(is_ws(line[j]));
        } else {
            assert(line[j] == t[j - a]);
            if t[j - a] == ':' {
                assert(t.subrange(j - a, j - a + 1) =~= seq![':']);
                assert(crate::text::match_at(t, seq![':'], j - a));
            }
        }
    }
    lemma_first_colon(line, a + q);
    let e = line.skip(a + q + 1);
    assert(path2 == t.skip(q + 1));
    if entry_path(line) == Some(path) {
        assert(e == path);
        if a + b == line.len() {
            assert(e =~= path2);
        } else {
            assert(e.last() == line[line.len() - 1]);
            assert(line[line.len() - 1] == u[u.len() - 1]);
            assert(is_ws(u[u.len() - 1]));
        }
    }
}

proof fn lemma_kept_contains(lines: Seq<Seq<char>>, path: Seq<char>, i: int)
    requires
        0 <= i < lines.len(),
        is_entry(lines[i]),
        entry_path(lines[i]) != Some(path),
    ensures
        kept_entries(lines, path).contains(lines[i]),
    decreases lines.len(),
{
    if i < lines.len() - 1 {
        assert(lines[i] == lines.drop_last()[i]);
        lemma_kept_contains(lines.drop_last(), path, i);
        let prev = kept_entries(lines.drop_last(), path);
        let k = choose|k: int| 0 <= k < prev.len() && prev[k] == lines[i];
        let r = kept_entries(lines, path);
        assert(r[k] == lines[i]);
    } else {
        let r = kept_entries(lines, path);
        assert(r.last() == lines[i]);
        assert(r[r.len() - 1] == lines[i]);
    }
}

/// Trusting one file leaves the trust in every other file as it was (for a
/// path that does not end in white space, which reading a line would trim).
pub proof fn law_trusting_keeps_other_files(
    lines: Seq<Seq<char>>,
    hash: Seq<char>,
    path: Seq<char>,
    other_hash: Seq<char>,
    other_path: Seq<char>,
)
    requires
        spec_ledger_trusts(lines, other_hash, other_path),
        other_path != path,
        path.len() == 0 || !is_ws(path.last()),
    ensures
        spec_ledger_trusts(spec_updated_ledger(lines, hash, path), other_hash, other_path),
{
    let i = choose|i: int| 0 <= i < lines.len() && line_trusts(#[trigger] lines[i], other_hash, other_path);
    lemma_trusting_line_path(lines[i], other_hash, other_path, path);
    lemma_kept_contains(lines, path, i);
    let kept = kept_entries(lines, path);
    let k = choose|k: int| 0 <= k < kept.len() && kept[k] == lines[i];
    let r = spec_updated_ledger(lines, hash, path);
    assert(r[k] == lines[i]);
    assert(line_trusts(r[k], other_hash, other_path));
}

proof fn lemma_kept_from_lines(lines: Seq<Seq<char>>, path: Seq<char>, k: int)
    requires
        0 <= k < kept_entries(lines, path).len(),
    ensures
        lines.contains(kept_entries(lines, path)[k]),
        entry_path(kept_entries(lines, path)[k]) != Some(path),
    decreases lines.len(),
{
    lemma_kept_entries(lines, path);
    if lines.len() > 0 {
        let prev = kept_entries(lines.drop_last(), path);
        if k < prev.len() {
            lemma_kept_from_lines(lines.drop_last(), path, k);
            let j = choose|j: int| 0 <= j < lines.drop_last().len() && lines.drop_last()[j] == prev[k];
            assert(lines[j] == prev[k]);
        } else {
            assert(lines[lines.len() - 1] == lines.last());
        }
    }
}

/// The entry written for a hexadecimal hash and a path records exactly
/// that hash.
proof fn lemma_new_entry_hash(hash: Seq<char>, path: Seq<char>, other_hash: Seq<char>)
    requires
        hash.len() > 0,
        is_hex_text(hash),
        path.len() == 0 || !is_ws(path.last()),
        line_trusts(ledger_entry(hash, path), other_hash, path),
    ensures
        other_hash == hash,
{
    let e = ledger_entry(hash, path);
    let n = hash.len() as int;
    lemma_hex_char(hash[0]);
    assert(e[0] == hash[0]);
    assert(crate::text::trim_start(e) == e);
    if path.len() > 0 {
        assert(e.last() == path.last());
    } else {
        assert(e.last() == ':');
    }
    assert(crate::text::trim_end(e) == e);
    assert(trim(e) == e);
    assert forall|j: int| 0 <= j < n implies e[j] != ':' by {
        assert(e[j] == hash[j]);
        lemma_hex_char(hash[j]);
    }
    assert(e[n] == ':');
    lemma_first_colon(e, n);
    assert(e.take(n) =~= hash);
}

/// After a file is trusted, the ledger trusts it with its new hash only: a
/// file whose content (and so its hash) has changed since is no longer
/// trusted. This holds for a hexadecimal hash, a path that does not end in
/// white space, and a ledger whose lines for the path name it exactly (a
/// line naming the path with trailing white space after it is kept by the
/// update, yet read as an entry for the path).
pub proof fn law_only_the_new_hash_is_trusted(
    lines: Seq<Seq<char>>,
    hash: Seq<char>,
    path: Seq<char>,
    other_hash: Seq<char>,
)
    requires
        hash.len() > 0,
        is_hex_text(hash),
        path.len() == 0 || !is_ws(path.last()),
        forall|i: int, h: Seq<char>|
            0 <= i < lines.len() && #[trigger] line_trusts(lines[i], h, path) ==> entry_path(lines[i])
                == Some(path),
    ensures
        spec_ledger_trusts(spec_updated_ledger(lines, hash, path), other_hash, path) <==> other_hash
            == hash,
{
    let r = spec_updated_ledger(lines, hash, path);
    let kept = kept_entries(lines, path);
    if other_hash == hash {
        law_trusted_after_trusting(lines, hash, path);
    }
    if spec_ledger_trusts(r, other_hash, path) {
        let i = choose|i: int| 0 <= i < r.len() && line_trusts(#[trigger] r[i], other_hash, path);
        if i < kept.len() {
            assert(r[i] == kept[i]);
            lemma_kept_from_lines(lines, path, i);
            let j = choose|j: int| 0 <= j < lines.len() && lines[j] == kept[i];
            assert(line_trusts(lines[j], other_hash, path));
        } else {
            assert(r[i] == ledger_entry(hash, path));
            lemma_new_entry_hash(hash, path, other_hash);
        }
    }
}


/// Trusting a file and reading the ledger back: afterwards the ledger trusts
/// the path with exactly the hash it was trusted with, no other, and holds
/// one entry for the path, the last one. This holds for a hexadecimal hash,
/// a path that does not end in white space, and a ledger whose lines for the
/// path name it exactly.
pub proof fn law_trust_round_trip(lines: Seq<Seq<char>>, hash: Seq<char>, path: Seq<char>)
    requires
        hash.len() > 0,
        is_hex_text(hash),
        path.len() == 0 || !is_ws(path.last()),
        forall|i: int, h: Seq<char>|
            0 <= i < lines.len() && #[trigger] line_trusts(lines[i], h, path) ==> entry_path(lines[i])
                == Some(path),
    ensures
        ({
            let r = spec_updated_ledger(lines, hash, path);
            &&& forall|h: Seq<char>| #[trigger] spec_ledger_trusts(r, h, path) <==> h == hash
            &&& forall|i: int|
                0 <= i < r.len() ==> (entry_path(#[trigger] r[i]) == Some(path) <==> i == r.len() - 1)
        }),
{
    let r = spec_updated_ledger(lines, hash, path);
    assert forall|h: Seq<char>| #[trigger] spec_ledger_trusts(r, h, path) <==> h == hash by {
        law_only_the_new_hash_is_trusted(lines, hash, path, h);
    }
    law_one_entry_per_path(lines, hash, path);
    let e = ledger_entry(hash, path);
    let n = hash.len() as int;
    assert forall|j: int| 0 <= j < n implies e[j] != ':' by {
        assert(e[j] == hash[j]);
        lemma_hex_char(hash[j]);
    }
    lemma_first_colon(e, n);
    assert(e.skip(n + 1) =~= path);
    assert(entry_path(r[r.len() - 1]) == Some(path));
}

} // verus!
