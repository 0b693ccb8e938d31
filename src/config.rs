use std::collections::BTreeMap;
use vstd::prelude::*;

use crate::config_map::{ConfigMap, lemma_pairs_to_map_dom, pairs_to_map, pairs_view};
use crate::error::ConfixError;

verus! {

/// The file formats that configuration can be loaded from.
#[derive(Debug, Clone, Copy, PartialEq, Eq, Structural)]
pub enum Format {
    /// Line-based `KEY=VALUE` text.
    Dotenv,
    /// A single flat JSON object with string values.
    Json,
    /// A single flat TOML table with string values.
    Toml,
}

/// What the file system says about a configuration path.
#[derive(Debug)]
pub enum FileContents {
    /// Nothing exists at the path.
    Missing,
    /// Something exists but could not be read as text; carries the system's message.
    Unreadable(String),
    /// The file's full text.
    Text(String),
}

/// A configuration path together with what was found there.
#[derive(Debug)]
pub struct ConfigSource {
    pub path: String,
    pub contents: FileContents,
}

/// The extension of a path (the part of its file name after the last `.`,
/// unless that dot leads the name), as `std::path::Path::extension` gives it.
pub uninterp spec fn path_extension(path: Seq<char>) -> Option<Seq<char>>;

/// The last component of a path, as `std::path::Path::file_name` gives it.
pub uninterp spec fn path_file_name(path: Seq<char>) -> Option<Seq<char>>;

/// The `(key, value)` pairs of a JSON text that is one object with string
/// values, in ascending key order, or `None` when the text is not such an object.
pub uninterp spec fn json_string_object(text: Seq<char>) -> Option<Seq<(Seq<char>, Seq<char>)>>;

/// The `(key, value)` pairs of a TOML text that is one table with string
/// values, in ascending key order, or `None` when the text is not such a table.
pub uninterp spec fn toml_string_table(text: Seq<char>) -> Option<Seq<(Seq<char>, Seq<char>)>>;

/// The keys, in line order, of a dotenv text that parses, or `None` when some
/// line breaks the dotenv grammar. Both depend on the text alone: the process
/// environment only fills in values.
pub uninterp spec fn dotenv_keys(text: Seq<char>) -> Option<Seq<Seq<char>>>;

/// The keys of a list of pairs, in order.
pub open spec fn pair_keys(s: Seq<(Seq<char>, Seq<char>)>) -> Seq<Seq<char>> {
    s.map_values(|q: (Seq<char>, Seq<char>)| q.0)
}

pub open spec fn opt_view(o: Option<String>) -> Option<Seq<char>> {
    match o {
        Some(s) => Some(s@),
        None => None,
    }
}

/// Relies on `std::path::Path::extension` (as UTF-8) to split off the extension.
/// As documented, a file name that begins with its only `.` (such as `.env`)
/// has no extension.
#[verifier::external_body]
fn extension_of(path: &str) -> (r: Option<String>)
    ensures
        opt_view(r) == path_extension(path@),
        r is Some ==> path_file_name(path@) != Some(".env"@),
{
    std::path::Path::new(path).extension().and_then(|e| e.to_str()).map(|e| e.to_string())
}

/// Relies on `std::path::Path::file_name` (as UTF-8) to take the last component.
#[verifier::external_body]
fn file_name_of(path: &str) -> (r: Option<String>)
    ensures
        opt_view(r) == path_file_name(path@),
{
    std::path::Path::new(path).file_name().and_then(|e| e.to_str()).map(|e| e.to_string())
}

/// Relies on `serde_json::from_str` into a `BTreeMap<String, String>`: it
/// succeeds exactly on a JSON object whose values are all strings, and the map
/// hands its entries out in key order.
#[verifier::external_body]
fn parse_json_object(text: &str) -> (r: Result<Vec<(String, String)>, serde_json::Error>)
    ensures
        match r {
            Ok(p) => json_string_object(text@) == Some(pairs_view(p@)),
            Err(_) => json_string_object(text@) is None,
        },
{
    serde_json::from_str::<BTreeMap<String, String>>(text).map(|m| m.into_iter().collect())
}

/// Relies on `toml::from_str` into a `BTreeMap<String, String>`: it succeeds
/// exactly on a TOML table whose values are all strings, and the map hands its
/// entries out in key order.
#[verifier::external_body]
fn parse_toml_table(text: &str) -> (r: Result<Vec<(String, String)>, toml::de::Error>)
    ensures
        match r {
            Ok(p) => toml_string_table(text@) == Some(pairs_view(p@)),
            Err(_) => toml_string_table(text@) is None,
        },
{
    toml::from_str::<BTreeMap<String, String>>(text).map(|m| m.into_iter().collect())
}

/// Relies on `dotenvy::Error::Io` to report, as the dotenv reader does, a file
/// that could not be read; carries the system's message.
#[verifier::external_body]
fn dotenv_read_error(msg: &str) -> dotenvy::Error {
    dotenvy::Error::Io(std::io::Error::new(std::io::ErrorKind::Other, msg.to_string()))
}

/// Relies on `dotenvy::from_read_iter`, which reads `KEY=VALUE` lines without
/// changing the process environment. A value may take `$NAME` substitutions
/// from the environment (`apply_substitution`), so of the pairs it yields only
/// the keys are named: whether a line parses and which key it gives follow
/// from the line grammar and `parse_key` alone. An empty text ends the line
/// reader at once and yields none.
#[verifier::external_body]
fn parse_dotenv_lines(text: &str) -> (r: Result<Vec<(String, String)>, dotenvy::Error>)
    ensures
        text@.len() == 0 ==> r is Ok && r->Ok_0@.len() == 0,
        match r {
            Ok(p) => dotenv_keys(text@) == Some(pair_keys(pairs_view(p@))),
            Err(_) => dotenv_keys(text@) is None,
        },
{
    dotenvy::from_read_iter(text.as_bytes()).collect()
}

/// The format chosen from a path's extension and file name: the extensions
/// `env`, `json` and `toml` (exact, case-sensitive), else a file named `.env`.
pub open spec fn format_for(ext: Option<Seq<char>>, name: Option<Seq<char>>) -> Option<Format> {
    if ext == Some("env"@) {
        Some(Format::Dotenv)
    } else if ext == Some("json"@) {
        Some(Format::Json)
    } else if ext == Some("toml"@) {
        Some(Format::Toml)
    } else if name == Some(".env"@) {
        Some(Format::Dotenv)
    } else {
        None
    }
}

/// The format of the file at `path`.
pub open spec fn detected_format(path: Seq<char>) -> Option<Format> {
    format_for(path_extension(path), path_file_name(path))
}

/// The keys of the map that a list of pairs spells out are the keys of the list.
pub proof fn lemma_pairs_to_map_keys(s: Seq<(Seq<char>, Seq<char>)>)
    ensures
        pairs_to_map(s).dom() == pair_keys(s).to_set(),
{
    assert forall|k: Seq<char>| pairs_to_map(s).dom().contains(k) <==> pair_keys(s).to_set().contains(k) by {
        lemma_pairs_to_map_dom(s, k);
        if pair_keys(s).contains(k) {
            let i = choose|i: int| 0 <= i < pair_keys(s).len() && pair_keys(s)[i] == k;
            assert(s[i].0 == k);
        }
        if exists|i: int| 0 <= i < s.len() && s[i].0 == k {
            let i = choose|i: int| 0 <= i < s.len() && s[i].0 == k;
            assert(pair_keys(s)[i] == k);
        }
    }
    assert(pairs_to_map(s).dom() =~= pair_keys(s).to_set());
}

/// Chooses the format from an extension and a file name already taken from a path.
pub fn format_from_parts(ext: Option<&str>, name: Option<&str>) -> (r: Option<Format>)
    ensures
        r == format_for(
            match ext { Some(e) => Some(e@), None => None },
            match name { Some(n) => Some(n@), None => None },
        ),
{
    let e = match ext {
        Some(e) => Some(e.to_owned()),
        None => None,
    };
    let n = match name {
        Some(n) => Some(n.to_owned()),
        None => None,
    };
    format_from_names(&e, &n)
}

fn format_from_names(ext: &Option<String>, name: &Option<String>) -> (r: Option<Format>)
    ensures
        r == format_for(opt_view(*ext), opt_view(*name)),
{
    if let Some(e) = ext {
        if *e == "env".to_owned() {
            return Some(Format::Dotenv);
        }
        if *e == "json".to_owned() {
            return Some(Format::Json);
        }
        if *e == "toml".to_owned() {
            return Some(Format::Toml);
        }
    }
    if let Some(n) = name {
        if *n == ".env".to_owned() {
            return Some(Format::Dotenv);
        }
    }
    None
}

/// An extension that names no supported format (matched exactly, so `ENV`,
/// `Json` or `txt` among them).
pub open spec fn unsupported_extension(ext: Option<Seq<char>>) -> bool {
    ext is Some && ext != Some("env"@) && ext != Some("json"@) && ext != Some("toml"@)
}

/// Determines the format of the file at `path` from its extension, falling
/// back to the bare name `.env`.
pub fn detect_format(path: &str) -> (r: Option<Format>)
    ensures
        r == detected_format(path@),
        path_extension(path@) is Some ==> path_file_name(path@) != Some(".env"@),
{
    let e = extension_of(path);
    let n = file_name_of(path);
    format_from_names(&e, &n)
}

/// Builds a map by inserting the pairs in order; a later pair wins over an
/// earlier one with the same key.
pub fn config_from_pairs(pairs: Vec<(String, String)>) -> (r: ConfigMap)
    ensures
        r.wf(),
        r@ == pairs_to_map(pairs_view(pairs@)),
{
    let mut m = ConfigMap::new();
    let mut i: usize = 0;
    while i < pairs.len()
        invariant
            i <= pairs@.len(),
            m.wf(),
            m@ == pairs_to_map(pairs_view(pairs@).take(i as int)),
        decreases pairs@.len() - i,
    {
        let (k, v) = (pairs[i].0.clone(), pairs[i].1.clone());
        m.insert(k, v);
        proof {
            let s = pairs_view(pairs@);
            assert(s.take(i + 1).drop_last() == s.take(i as int));
        }
        i = i + 1;
    }
    assert(pairs_view(pairs@).take(pairs@.len() as int) == pairs_view(pairs@));
    m
}

/// The outcomes that parsing `text` as `format` may have. JSON and TOML give
/// exactly the map their pairs spell out, or fail exactly when the text is not
/// a flat object of strings. A dotenv text gives a map of unique keys or a
/// dotenv error exactly as the text breaks the dotenv grammar, and the keys of
/// the map are those of its lines; an empty text gives the empty map.
pub open spec fn parse_spec(format: Format, text: Seq<char>, r: Result<ConfigMap, ConfixError>) -> bool {
    match format {
        Format::Json => match r {
            Ok(m) => m.wf() && json_string_object(text) is Some && m@ == pairs_to_map(
                json_string_object(text)->0,
            ),
            Err(e) => json_string_object(text) is None && e is Json,
        },
        Format::Toml => match r {
            Ok(m) => m.wf() && toml_string_table(text) is Some && m@ == pairs_to_map(
                toml_string_table(text)->0,
            ),
            Err(e) => toml_string_table(text) is None && e is Toml,
        },
        Format::Dotenv => match r {
            Ok(m) => {
                &&& m.wf()
                &&& dotenv_keys(text) is Some
                &&& m@.dom() == dotenv_keys(text)->0.to_set()
                &&& text.len() == 0 ==> m@ == Map::<Seq<char>, Seq<char>>::empty()
            },
            Err(e) => e is Dotenv && dotenv_keys(text) is None && text.len() != 0,
        },
    }
}

/// The outcomes that loading `src` may have: a missing file is reported first,
/// then an unsupported format, then a read failure (a dotenv error for a
/// dotenv file, which the dotenv reader opens itself; an I/O error otherwise);
/// otherwise the text is parsed in the detected format.
pub open spec fn load_spec(src: ConfigSource, r: Result<ConfigMap, ConfixError>) -> bool {
    match src.contents {
        FileContents::Missing => match r {
            Err(ConfixError::FileNotFound(p)) => p@ == src.path@,
            _ => false,
        },
        FileContents::Unreadable(msg) => match detected_format(src.path@) {
            None => match r {
                Err(ConfixError::UnsupportedFormat(p)) => p@ == src.path@,
                _ => false,
            },
            Some(Format::Dotenv) => match r {
                Err(e) => e is Dotenv,
                _ => false,
            },
            Some(_) => match r {
                Err(ConfixError::Io(m)) => m@ == msg@,
                _ => false,
            },
        },
        FileContents::Text(text) => match detected_format(src.path@) {
            None => match r {
                Err(ConfixError::UnsupportedFormat(p)) => p@ == src.path@,
                _ => false,
            },
            Some(f) => parse_spec(f, text@, r),
        },
    }
}

/// Parses the full text of a file in the given format into a flat map.
pub fn parse_config(format: Format, text: &str) -> (r: Result<ConfigMap, ConfixError>)
    ensures
        parse_spec(format, text@, r),
{
    match format {
        Format::Dotenv => match parse_dotenv_lines(text) {
            Ok(pairs) => {
                assert(pairs@.len() == 0 ==> pairs_view(pairs@).len() == 0);
                proof {
                    lemma_pairs_to_map_keys(pairs_view(pairs@));
                }
                Ok(config_from_pairs(pairs))
            },
            Err(e) => Err(ConfixError::Dotenv(e)),
        },
        Format::Json => match parse_json_object(text) {
            Ok(pairs) => Ok(config_from_pairs(pairs)),
            Err(e) => Err(ConfixError::Json(e)),
        },
        Format::Toml => match parse_toml_table(text) {
            Ok(pairs) => Ok(config_from_pairs(pairs)),
            Err(e) => Err(ConfixError::Toml(e)),
        },
    }
}

/// Loads one configuration file: reports a missing file, then an unsupported
/// format, then a read failure, and otherwise parses the text in the format
/// that the path names.
pub fn load_config_file(source: &ConfigSource) -> (r: Result<ConfigMap, ConfixError>)
    ensures
        load_spec(*source, r),
        !(source.contents is Missing) && unsupported_extension(path_extension(source.path@)) ==> match r {
            Err(ConfixError::UnsupportedFormat(p)) => p@ == source.path@,
            _ => false,
        },
{
    match &source.contents {
        FileContents::Missing => Err(ConfixError::FileNotFound(source.path.clone())),
        FileContents::Unreadable(msg) => match detect_format(source.path.as_str()) {
            None => Err(ConfixError::UnsupportedFormat(source.path.clone())),
            Some(Format::Dotenv) => Err(ConfixError::Dotenv(dotenv_read_error(msg.as_str()))),
            Some(_) => Err(ConfixError::Io(msg.clone())),
        },
        FileContents::Text(text) => match detect_format(source.path.as_str()) {
            None => Err(ConfixError::UnsupportedFormat(source.path.clone())),
            Some(f) => parse_config(f, text.as_str()),
        },
    }
}

} // verus!
