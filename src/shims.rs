//! The shim's configuration: where its file is, how its text is read, and
//! the launch description that it yields.

use rustc_hash::FxHashMap;
use unicode_bom::Bom;
use vstd::prelude::*;
use vstd::string::StringExecFns;
use crate::text::{
    chars_of, first_index, first_index_of, lemma_first_index_bounds, lines, lines_of, string_of,
    sub_chars, trim, trim_chars, unquote, unquote_chars, words, words_of,
};

verus! {

broadcast use vstd::string::group_string_axioms;

/// What kind of failure a `ShimError` reports.
pub enum ShimErrorKind {
    /// The configuration names no target path.
    NotFound,
    /// The configuration file cannot be located or read.
    Other,
    /// A line of the configuration is malformed.
    InvalidData,
}

/// A failure to resolve or load the shim's configuration.
pub struct ShimError {
    pub reason: ShimErrorKind,
    pub description: String,
}

impl ShimError {
    /// The failure for a configuration path where no file is.
    pub fn not_a_file(shim_path: &str) -> (r: ShimError)
        ensures
            r.reason is Other,
            r.description@ == shim_path@ + " is not a file"@,
    {
        let mut description = shim_path.to_owned();
        description.append(" is not a file");
        ShimError { reason: ShimErrorKind::Other, description }
    }

    /// The failure for a configuration file that cannot be read, with the
    /// system's account of why.
    pub fn unreadable(shim_path: &str, detail: &str) -> (r: ShimError)
        ensures
            r.reason is Other,
            r.description@ == "reading "@ + shim_path@ + ": "@ + detail@,
    {
        let mut description = "reading ".to_owned();
        description.append(shim_path);
        description.append(": ");
        description.append(detail);
        ShimError { reason: ShimErrorKind::Other, description }
    }

    /// The human-readable description.
    pub fn to_string(&self) -> (r: String)
        ensures
            r@ == self.description@,
    {
        self.description.clone()
    }
}

/// The key/value mapping read from a configuration file.
#[verifier::external_body]
pub struct ShimEntries {
    map: FxHashMap<String, String>,
}

/// What a `ShimEntries` holds, keyed by the key's chars.
pub uninterp spec fn entries_of(m: ShimEntries) -> Map<Seq<char>, Seq<char>>;

impl View for ShimEntries {
    type V = Map<Seq<char>, Seq<char>>;

    open spec fn view(&self) -> Map<Seq<char>, Seq<char>> {
        entries_of(*self)
    }
}

/// Relies on `FxHashMap::default` (std's `HashMap` with rustc-hash's
/// hasher): a map with no entries.
#[verifier::external_body]
fn entries_new() -> (r: ShimEntries)
    ensures
        entries_of(r).dom() =~= Set::<Seq<char>>::empty(),
{
    ShimEntries { map: FxHashMap::default() }
}

/// Relies on `HashMap::insert`: the key maps to the value afterwards and
/// every other key keeps its value. `String` keys compare by their chars.
#[verifier::external_body]
fn entries_insert(m: &mut ShimEntries, k: String, v: String)
    ensures
        entries_of(*final(m)) == entries_of(*old(m)).insert(k@, v@),
{
    m.map.insert(k, v);
}

/// Relies on `HashMap::get`: the value under the key, if the key is there.
#[verifier::external_body]
fn entries_get(m: &ShimEntries, k: &str) -> (r: Option<String>)
    ensures
        match r {
            Some(v) => entries_of(*m).contains_key(k@) && v@ == entries_of(*m)[k@],
            None => !entries_of(*m).contains_key(k@),
        },
{
    m.map.get(k).cloned()
}

impl ShimEntries {
    /// The value under `key`, if the configuration has that key.
    pub fn get(&self, key: &str) -> (r: Option<String>)
        ensures
            match r {
                Some(v) => self@.contains_key(key@) && v@ == self@[key@],
                None => !self@.contains_key(key@),
            },
    {
        entries_get(self, key)
    }
}

/// The length in bytes of the byte-order mark that opens UTF-8 text `s`,
/// as unicode-bom detects it: the UTF-8 mark is the char U+FEFF (three
/// bytes), the UTF-7 mark is `+/v` and one of `8`, `9`, `+`, `/`.
pub open spec fn bom_byte_len(s: Seq<char>) -> usize {
    if s.len() >= 1 && s[0] == '\u{FEFF}' {
        3
    } else if s.len() >= 4 && s[0] == '+' && s[1] == '/' && s[2] == 'v' && (s[3] == '8' || s[3]
        == '9' || s[3] == '+' || s[3] == '/') {
        4
    } else {
        0
    }
}

/// Relies on unicode-bom's `Bom::from` and `Bom::len`: the length in bytes
/// of the mark that opens the bytes. Of the marks it knows, only the UTF-8
/// and the UTF-7 ones can open valid UTF-8: each other one holds a byte
/// that valid UTF-8 never holds there (`FE`, `FF`, `F7`, `FB`, a leading
/// `84`, or `DD` without a continuation byte after it).
#[verifier::external_body]
fn bom_len(s: &str) -> (r: usize)
    ensures
        r == bom_byte_len(s@),
{
    Bom::from(s.as_bytes()).len()
}

/// The text after its byte-order mark, if it has one.
pub open spec fn without_bom(s: Seq<char>) -> Seq<char> {
    if bom_byte_len(s) == 3 {
        s.drop_first()
    } else {
        s.subrange(bom_byte_len(s) as int, s.len() as int)
    }
}

/// The key of a line that holds a `=`: the text before the first `=`,
/// trimmed, then unquoted.
pub open spec fn line_key(l: Seq<char>) -> Seq<char> {
    unquote(trim(l.subrange(0, first_index(l, '='))))
}

/// The value of a line that holds a `=`: the text after the first `=`,
/// trimmed, then unquoted.
pub open spec fn line_value(l: Seq<char>) -> Seq<char> {
    unquote(trim(l.subrange(first_index(l, '=') + 1, l.len() as int)))
}

/// The mapping of the lines, in order: blank lines skipped, a later key
/// replacing an earlier one; or the first nonblank line without a `=`.
pub open spec fn parse_lines(ls: Seq<Seq<char>>) -> Result<Map<Seq<char>, Seq<char>>, Seq<char>>
    decreases ls.len(),
{
    if ls.len() == 0 {
        Ok(Map::empty())
    } else {
        match parse_lines(ls.drop_last()) {
            Err(bad) => Err(bad),
            Ok(m) => {
                let l = ls.last();
                if trim(l).len() == 0 {
                    Ok(m)
                } else if first_index(l, '=') < l.len() {
                    Ok(m.insert(line_key(l), line_value(l)))
                } else {
                    Err(l)
                }
            },
        }
    }
}

/// The mapping of a configuration text, or the first malformed line.
pub open spec fn parse_config(text: Seq<char>) -> Result<Map<Seq<char>, Seq<char>>, Seq<char>> {
    parse_lines(lines(without_bom(text)))
}

proof fn lemma_parse_lines_err(ls: Seq<Seq<char>>, n: int)
    requires
        0 <= n <= ls.len(),
        parse_lines(ls.take(n)) is Err,
    ensures
        parse_lines(ls) == parse_lines(ls.take(n)),
    decreases ls.len() - n,
{
    if n < ls.len() {
        assert(ls.take(n + 1).drop_last() =~= ls.take(n));
        lemma_parse_lines_err(ls, n + 1);
    } else {
        assert(ls.take(n) =~= ls);
    }
}

/// The description of a malformed line.
pub open spec fn invalid_line_text(line: Seq<char>) -> Seq<char> {
    "invalid line in shim file: "@ + line
}

/// Parses the text of a configuration file into its key/value mapping.
pub fn parse_shim_file(content: &str) -> (r: Result<ShimEntries, ShimError>)
    ensures
        match parse_config(content@) {
            Ok(m) => r is Ok && r->Ok_0@ == m,
            Err(line) => r is Err && r->Err_0.reason is InvalidData && r->Err_0.description@
                == invalid_line_text(line),
        },
{
    let chars = chars_of(content);
    // The UTF-8 mark is one char of three bytes; the UTF-7 mark is four
    // ASCII chars.
    let n = bom_len(content);
    let skip: usize = if n == 3 { 1 } else { n };
    let body = sub_chars(&chars, skip, chars.len());
    assert(body@ =~= without_bom(content@));
    let ls = lines_of(&body);
    let ghost lsv = ls@.map_values(|l: Vec<char>| l@);
    let mut m = entries_new();
    assert(entries_of(m) =~= Map::<Seq<char>, Seq<char>>::empty());
    let mut k: usize = 0;
    assert(lsv.take(0) =~= Seq::<Seq<char>>::empty());
    while k < ls.len()
        invariant
            k <= ls@.len(),
            lsv == ls@.map_values(|l: Vec<char>| l@),
            lsv == lines(without_bom(content@)),
            parse_lines(lsv.take(k as int)) == Ok::<_, Seq<char>>(entries_of(m)),
        decreases ls.len() - k,
    {
        let line = &ls[k];
        assert(lsv.take(k + 1).drop_last() =~= lsv.take(k as int));
        assert(lsv.take(k + 1).last() == line@);
        let t = trim_chars(line);
        if t.len() > 0 {
            let e = first_index_of(line, '=');
            proof {
                lemma_first_index_bounds(line@, '=');
            }
            if e < line.len() {
                let key = unquote_chars(&trim_chars(&sub_chars(line, 0, e)));
                let value = unquote_chars(&trim_chars(&sub_chars(line, e + 1, line.len())));
                entries_insert(&mut m, string_of(&key), string_of(&value));
            } else {
                proof {
                    lemma_parse_lines_err(lsv, k + 1);
                }
                let mut description = "invalid line in shim file: ".to_owned();
                description.append(string_of(line).as_str());
                return Err(ShimError { reason: ShimErrorKind::InvalidData, description });
            }
        }
        k += 1;
    }
    assert(lsv.take(ls.len() as int) =~= lsv);
    Ok(m)
}

pub open spec fn is_separator(c: char) -> bool {
    c == '\\' || c == '/'
}

/// Index of the dot that opens the extension of the last component of `p`,
/// or -1 where that component has no dot.
pub open spec fn ext_dot(p: Seq<char>) -> int
    decreases p.len(),
{
    if p.len() == 0 {
        -1
    } else if p.last() == '.' {
        p.len() - 1
    } else if is_separator(p.last()) {
        -1
    } else {
        ext_dot(p.drop_last())
    }
}

/// `p` with its extension replaced by `shim`, where it has one.
pub open spec fn shim_path_of(p: Seq<char>) -> Option<Seq<char>> {
    if ext_dot(p) >= 0 {
        Some(p.subrange(0, ext_dot(p) + 1) + "shim"@)
    } else {
        None
    }
}

proof fn lemma_ext_dot_bounds(p: Seq<char>)
    ensures
        -1 <= ext_dot(p) < p.len(),
        ext_dot(p) >= 0 ==> p[ext_dot(p)] == '.',
    decreases p.len(),
{
    if p.len() > 0 && p.last() != '.' && !is_separator(p.last()) {
        lemma_ext_dot_bounds(p.drop_last());
    }
}

/// The path of the configuration file beside the executable at
/// `current_exe`: the executable's extension replaced by `shim`.
pub fn get_shim_file_path(current_exe: &str) -> (r: Result<String, ShimError>)
    ensures
        match shim_path_of(current_exe@) {
            Some(q) => r is Ok && r->Ok_0@ == q,
            None => r is Err && r->Err_0.reason is Other && r->Err_0.description@ == current_exe@
                + " has no extension"@,
        },
{
    let s = chars_of(current_exe);
    let mut i: usize = s.len();
    assert(s@.subrange(0, i as int) =~= s@);
    while i > 0 && s[i - 1] != '.' && s[i - 1] != '\\' && s[i - 1] != '/'
        invariant
            i <= s@.len(),
            s@ == current_exe@,
            ext_dot(s@) == ext_dot(s@.subrange(0, i as int)),
        decreases i,
    {
        assert(s@.subrange(0, i as int).drop_last() =~= s@.subrange(0, i - 1));
        i -= 1;
    }
    if i > 0 && s[i - 1] == '.' {
        let mut path = string_of(&sub_chars(&s, 0, i));
        path.append("shim");
        Ok(path)
    } else {
        let mut description = current_exe.to_owned();
        description.append(" has no extension");
        Err(ShimError { reason: ShimErrorKind::Other, description })
    }
}

/// The launch description of a shim: the target executable and the
/// arguments placed before the caller's.
pub struct Shim {
    pub target_path: String,
    pub args: Option<Vec<String>>,
}

pub open spec fn strings_view(v: Vec<String>) -> Seq<Seq<char>> {
    v@.map_values(|s: String| s@)
}

/// The fixed arguments that a mapping gives: the words of its `args` value,
/// or none where it has no `args` key.
pub open spec fn fixed_args_of(m: Map<Seq<char>, Seq<char>>) -> Option<Seq<Seq<char>>> {
    if m.contains_key("args"@) {
        Some(words(m["args"@]))
    } else {
        None
    }
}

/// The description of a configuration whose `path` value is empty.
pub open spec fn empty_path_text(shim_path: Seq<char>) -> Seq<char> {
    "empty path in "@ + shim_path
}

/// The description of a configuration without a `path` key.
pub open spec fn no_path_text(shim_path: Seq<char>) -> Seq<char> {
    "no path key in "@ + shim_path
}

/// What loading the configuration text `text` of the file at `shim_path`
/// comes to: the target path and the fixed arguments, or the kind and
/// description of the failure.
pub open spec fn load_outcome(shim_path: Seq<char>, text: Seq<char>) -> Result<
    (Seq<char>, Option<Seq<Seq<char>>>),
    (ShimErrorKind, Seq<char>),
> {
    match parse_config(text) {
        Err(line) => Err((ShimErrorKind::InvalidData, invalid_line_text(line))),
        Ok(m) => if m.contains_key("path"@) {
            if m["path"@].len() > 0 {
                Ok((m["path"@], fixed_args_of(m)))
            } else {
                Err((ShimErrorKind::NotFound, empty_path_text(shim_path)))
            }
        } else {
            Err((ShimErrorKind::NotFound, no_path_text(shim_path)))
        },
    }
}

pub open spec fn shim_result_view(r: Result<Shim, ShimError>) -> Result<
    (Seq<char>, Option<Seq<Seq<char>>>),
    (ShimErrorKind, Seq<char>),
> {
    match r {
        Ok(shim) => Ok((shim.target_path@, shim.args_view())),
        Err(e) => Err((e.reason, e.description@)),
    }
}

/// A line that holds a `=` and so gives a key and a value.
pub open spec fn is_entry_line(l: Seq<char>) -> bool {
    trim(l).len() > 0 && first_index(l, '=') < l.len()
}

/// Every key of a parsed mapping comes from a line of the text, and its
/// value is that line's trimmed, unquoted value.
proof fn lemma_parse_lines_key_source(ls: Seq<Seq<char>>, k: Seq<char>)
    requires
        parse_lines(ls) is Ok,
        parse_lines(ls)->Ok_0.contains_key(k),
    ensures
        exists|i: int|
            0 <= i < ls.len() && is_entry_line(#[trigger] ls[i]) && line_key(ls[i]) == k
                && parse_lines(ls)->Ok_0[k] == line_value(ls[i]),
    decreases ls.len(),
{
    let prev = ls.drop_last();
    let l = ls.last();
    if is_entry_line(l) && line_key(l) == k {
        assert(ls[ls.len() - 1] == l);
    } else {
        lemma_parse_lines_key_source(prev, k);
        let i = choose|i: int|
            0 <= i < prev.len() && is_entry_line(#[trigger] prev[i]) && line_key(prev[i]) == k
                && parse_lines(prev)->Ok_0[k] == line_value(prev[i]);
        assert(ls[i] == prev[i]);
    }
}

/// A text that parses and has a nonempty `path` value but no `args` key
/// loads to that path, taken from a line of the text with surrounding whitespace and
/// quotes removed, and to no fixed arguments.
pub proof fn lemma_load_without_args(shim_path: Seq<char>, text: Seq<char>)
    requires
        parse_config(text) is Ok,
        parse_config(text)->Ok_0.contains_key("path"@),
        parse_config(text)->Ok_0["path"@].len() > 0,
        !parse_config(text)->Ok_0.contains_key("args"@),
    ensures
        load_outcome(shim_path, text) is Ok,
        load_outcome(shim_path, text)->Ok_0.1 is None,
        exists|l: Seq<char>|
            lines(without_bom(text)).contains(l) && is_entry_line(l) && line_key(l) == "path"@
                && load_outcome(shim_path, text)->Ok_0.0 == line_value(l),
{
    let ls = lines(without_bom(text));
    lemma_parse_lines_key_source(ls, "path"@);
    let i = choose|i: int|
        0 <= i < ls.len() && is_entry_line(#[trigger] ls[i]) && line_key(ls[i]) == "path"@
            && parse_lines(ls)->Ok_0["path"@] == line_value(ls[i]);
    assert(ls.contains(ls[i]));
}

/// A text that parses and has no line with the key `path` fails to load
/// with `NotFound`, never with `InvalidData`.
pub proof fn lemma_load_missing_path(shim_path: Seq<char>, text: Seq<char>)
    requires
        parse_config(text) is Ok,
        forall|l: Seq<char>|
            lines(without_bom(text)).contains(l) && is_entry_line(l) ==> line_key(l) != "path"@,
    ensures
        load_outcome(shim_path, text) == Err::<(Seq<char>, Option<Seq<Seq<char>>>), _>(
            (ShimErrorKind::NotFound, no_path_text(shim_path)),
        ),
{
    let ls = lines(without_bom(text));
    if parse_config(text)->Ok_0.contains_key("path"@) {
        lemma_parse_lines_key_source(ls, "path"@);
        let i = choose|i: int|
            0 <= i < ls.len() && is_entry_line(#[trigger] ls[i]) && line_key(ls[i]) == "path"@
                && parse_lines(ls)->Ok_0["path"@] == line_value(ls[i]);
        assert(ls.contains(ls[i]));
    }
}

/// A text opened by the UTF-8 byte-order mark parses as the same text
/// without it.
pub proof fn lemma_bom_ignored(text: Seq<char>)
    requires
        bom_byte_len(text) == 0,
    ensures
        parse_config(seq!['\u{FEFF}'] + text) == parse_config(text),
{
    let marked = seq!['\u{FEFF}'] + text;
    assert(marked[0] == '\u{FEFF}');
    assert(marked.drop_first() =~= text);
    assert(text.subrange(0, text.len() as int) =~= text);
}

impl Shim {
    pub open spec fn args_view(&self) -> Option<Seq<Seq<char>>> {
        match self.args {
            Some(v) => Some(strings_view(v)),
            None => None,
        }
    }

    /// The launch description in the configuration text `content` of the
    /// file at `shim_path`.
    pub fn init(shim_path: &str, content: &str) -> (r: Result<Self, ShimError>)
        ensures
            shim_result_view(r) == load_outcome(shim_path@, content@),
            r is Ok ==> r->Ok_0.target_path@.len() > 0,
    {
        let kvs = match parse_shim_file(content) {
            Ok(kvs) => kvs,
            Err(e) => return Err(e),
        };
        let target_path = match kvs.get("path") {
            Some(p) => {
                if p.as_str().is_empty() {
                    let mut description = "empty path in ".to_owned();
                    description.append(shim_path);
                    return Err(ShimError { reason: ShimErrorKind::NotFound, description });
                }
                p
            },
            None => {
                let mut description = "no path key in ".to_owned();
                description.append(shim_path);
                return Err(ShimError { reason: ShimErrorKind::NotFound, description });
            },
        };
        let args = match kvs.get("args") {
            Some(a) => Some(split_args(a.as_str())),
            None => None,
        };
        Ok(Shim { target_path, args })
    }
}

/// The whitespace-separated words of `s`.
pub fn split_args(s: &str) -> (r: Vec<String>)
    ensures
        strings_view(r) == words(s@),
{
    let ws = words_of(&chars_of(s));
    let ghost wv = ws@.map_values(|w: Vec<char>| w@);
    let mut r: Vec<String> = Vec::new();
    let mut i: usize = 0;
    while i < ws.len()
        invariant
            i <= ws@.len(),
            wv == ws@.map_values(|w: Vec<char>| w@),
            wv == words(s@),
            strings_view(r) == wv.take(i as int),
        decreases ws.len() - i,
    {
        let ghost before = strings_view(r);
        let w = string_of(&ws[i]);
        r.push(w);
        assert(strings_view(r) =~= before.push(w@));
        assert(strings_view(r) =~= wv.take(i + 1));
        i += 1;
    }
    assert(wv.take(ws.len() as int) =~= wv);
    r
}

} // verus!
