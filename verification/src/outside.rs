//! The calls into the standard library and outside crates whose results the
//! library names rather than restates.

use vstd::prelude::*;
use crate::sshhost::SshHostParams;

verus! {

/// Unicode lower-casing of a whole string (`str::to_lowercase`).
pub uninterp spec fn spec_lowercase(s: Seq<char>) -> Seq<char>;

/// `str::to_lowercase`. Claimed: the result is a function of the input
/// alone, named `spec_lowercase`; nothing more is stated of the Unicode
/// mapping.
#[verifier::external_body]
pub(crate) fn to_lowercase(s: &str) -> (r: String)
    ensures
        r@ == spec_lowercase(s@),
{
    s.to_lowercase()
}

#[verifier::external_type_specification]
#[verifier::external_body]
pub struct ExGlobPattern(glob::Pattern);

/// Whether `glob::Pattern::new` accepts the pattern.
pub uninterp spec fn glob_valid(pattern: Seq<char>) -> bool;

/// Whether the compiled pattern matches the text (`glob::Pattern::matches`).
pub uninterp spec fn glob_matches(pattern: Seq<char>, text: Seq<char>) -> bool;

/// A shell-style pattern compiled by the `glob` crate, with its source text.
pub struct HostPattern {
    source: String,
    compiled: glob::Pattern,
}

impl HostPattern {
    pub closed spec fn source_view(&self) -> Seq<char> {
        self.source@
    }
}

/// `glob::Pattern::new`. Claimed: it succeeds exactly when `glob_valid`
/// holds of the text, a function of the text alone, and the compiled pattern
/// keeps that text as its source.
#[verifier::external_body]
pub(crate) fn compile_glob(pattern: &str) -> (r: Option<HostPattern>)
    ensures
        r is Some == glob_valid(pattern@),
        r matches Some(p) ==> p.source_view() == pattern@,
{
    match glob::Pattern::new(pattern) {
        Ok(compiled) => Some(HostPattern { source: pattern.to_string(), compiled }),
        Err(_) => None,
    }
}

/// `glob::Pattern::matches`. Claimed: the answer is `glob_matches` of the
/// pattern's source and the text, a function of those two alone.
#[verifier::external_body]
pub(crate) fn glob_is_match(p: &HostPattern, text: &str) -> (r: bool)
    ensures
        r == glob_matches(p.source_view(), text@),
{
    p.compiled.matches(text)
}

/// The `Debug` rendering of a string: quoted, with escapes.
pub uninterp spec fn spec_debug_str(s: Seq<char>) -> Seq<char>;

/// `<str as Debug>::fmt` through `format!("{:?}", ..)`. Claimed: the result
/// is a function of the text alone, named `spec_debug_str`; the quoting and
/// escaping rules are not restated.
#[verifier::external_body]
pub(crate) fn debug_str(s: &str) -> (r: String)
    ensures
        r@ == spec_debug_str(s@),
{
    format!("{:?}", s)
}

#[verifier::external_type_specification]
#[verifier::external_body]
pub struct ExRegex(regex::Regex);

/// Whether `regex::RegexBuilder` accepts the pattern with case-insensitive
/// matching on.
pub uninterp spec fn regex_ci_valid(pattern: Seq<char>) -> bool;

/// Whether the case-insensitive regex of `pattern` matches somewhere in
/// `text` (`regex::Regex::is_match`).
pub uninterp spec fn regex_ci_matches(pattern: Seq<char>, text: Seq<char>) -> bool;

/// The text of the error `regex::RegexBuilder::build` gives for a pattern
/// it refuses.
pub uninterp spec fn regex_error_text(pattern: Seq<char>) -> Seq<char>;

/// A case-insensitive regular expression compiled by the `regex` crate, with
/// its source text.
pub struct LinePattern {
    source: String,
    compiled: regex::Regex,
}

impl LinePattern {
    pub closed spec fn source_view(&self) -> Seq<char> {
        self.source@
    }
}

/// `regex::RegexBuilder::new(..).case_insensitive(true).build()`. Claimed:
/// it succeeds exactly when `regex_ci_valid` holds of the pattern, keeping
/// the pattern as the source; otherwise the error's display text is
/// `regex_error_text` of the pattern. All of it is a function of the pattern.
#[verifier::external_body]
pub(crate) fn compile_line_pattern(pattern: &str) -> (r: Result<LinePattern, String>)
    ensures
        match r {
            Ok(p) => regex_ci_valid(pattern@) && p.source_view() == pattern@,
            Err(msg) => !regex_ci_valid(pattern@) && msg@ == regex_error_text(pattern@),
        },
{
    match regex::RegexBuilder::new(pattern).case_insensitive(true).build() {
        Ok(compiled) => Ok(LinePattern { source: pattern.to_string(), compiled }),
        Err(e) => Err(format!("{}", e)),
    }
}

/// `regex::Regex::is_match`. Claimed: the answer is `regex_ci_matches` of the
/// source pattern and the text.
#[verifier::external_body]
pub(crate) fn line_pattern_matches(p: &LinePattern, text: &str) -> (r: bool)
    ensures
        r == regex_ci_matches(p.source_view(), text@),
{
    p.compiled.is_match(text)
}

/// The text `String::from_utf8_lossy` decodes from bytes.
pub uninterp spec fn spec_utf8_lossy(bytes: Seq<u8>) -> Seq<char>;

/// `String::from_utf8_lossy(..).into_owned()`. Claimed: the result is a
/// function of the bytes alone, named `spec_utf8_lossy`.
#[verifier::external_body]
pub(crate) fn utf8_lossy(bytes: &[u8]) -> (r: String)
    ensures
        r@ == spec_utf8_lossy(bytes@),
{
    String::from_utf8_lossy(bytes).into_owned()
}

/// The SHA-256 digest of a byte string.
pub uninterp spec fn spec_sha256(data: Seq<u8>) -> Seq<u8>;

/// `<sha2::Sha256 as Digest>::digest`. Claimed: the digest is a function of
/// the data alone, named `spec_sha256`, and is 32 bytes long (the output
/// size of `Sha256`).
#[verifier::external_body]
pub(crate) fn sha256_digest(data: &[u8]) -> (r: Vec<u8>)
    ensures
        r@ == spec_sha256(data@),
        r@.len() == 32,
{
    <sha2::Sha256 as sha2::Digest>::digest(data).to_vec()
}

/// The path without its final component, as `std::path::Path::parent`
/// gives it.
pub uninterp spec fn spec_path_parent(p: Seq<char>) -> Option<Seq<char>>;

/// `std::path::Path::parent`. Claimed: the answer is a function of the path
/// alone, named `spec_path_parent`; a parent, being the path without its
/// final (non-empty) component, is shorter than the path.
#[verifier::external_body]
pub(crate) fn path_parent(p: &str) -> (r: Option<String>)
    ensures
        match r {
            Some(q) => spec_path_parent(p@) == Some(q@) && q@.len() < p@.len(),
            None => spec_path_parent(p@) is None,
        },
{
    std::path::Path::new(p).parent().map(|q| q.to_string_lossy().into_owned())
}

/// `std::path::Path::is_file`. It asks the file system at the time of the
/// call, so nothing is claimed of the answer.
#[verifier::external_body]
pub(crate) fn path_is_file(p: &str) -> (r: bool)
{
    std::path::Path::new(p).is_file()
}

/// Whether `base` is a leading run of whole components of `path`, as
/// `std::path::Path::starts_with` decides it.
pub uninterp spec fn spec_path_starts_with(path: Seq<char>, base: Seq<char>) -> bool;

/// `std::path::Path::starts_with`. Claimed: the answer is a function of the
/// two paths alone, named `spec_path_starts_with`.
#[verifier::external_body]
pub(crate) fn path_starts_with(path: &str, base: &str) -> (r: bool)
    ensures
        r == spec_path_starts_with(path@, base@),
{
    std::path::Path::new(path).starts_with(base)
}

/// `ssh2_config::SshConfig::parse` on an OpenSSH configuration text (with
/// `ParseRule::STRICT`), then `SshConfig::query` for `host`, its fields moved
/// into the library's type (identity files as text), or the parser's error
/// as text. Nothing is claimed of the outcome: besides the text, it
/// depends on the home directory and on the files that `Include` lines
/// name on disk.
#[verifier::external_body]
pub(crate) fn ssh_host_params(config_text: &[u8], host: &str) -> (r: Result<SshHostParams, String>)
{
    match ssh2_config::SshConfig::default().parse(&mut &config_text[..], ssh2_config::ParseRule::STRICT) {
        Ok(config) => {
            let q = config.query(host);
            let identity_files = q.identity_file.map(
                |fs| fs.iter().map(|f| f.to_string_lossy().into_owned()).collect(),
            );
            Ok(SshHostParams { host_name: q.host_name, port: q.port, user: q.user, identity_files })
        },
        Err(e) => Err(format!("{}", e)),
    }
}

} // verus!
