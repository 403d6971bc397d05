//! A lenient, line-oriented reader of the mod-descriptor format.
//!
//! Where [`crate::parser::descriptor`] parses the descriptor grammar
//! strictly, this reader walks the text line by line: a line containing
//! `{` whose key (the cleaned text before its `=`) is `tags` opens the
//! tag block, and a line containing `}` closes it; inside the block
//! every line is one tag; outside it, a line is split at its first `=`
//! into a key and a value, both cleaned of surrounding whitespace and
//! quotes. Lines without `=`, and the lines of an unrecognized block,
//! are skipped. The same four fields are required as in the strict
//! parser.

use vstd::prelude::*;

use crate::errors::{ModErrorKind, ModParseError};
use crate::models::{DescriptorModel, ModDescriptor};
use crate::parser::descriptor::strings_view;
use crate::parser::text::{
    eat_ws, find_char, find_char_at, is_ws, lemma_find_char_props, skip_ws, ws_char,
};

verus! {

/// A line with one trailing carriage return removed.
pub open spec fn strip_cr(l: Seq<char>) -> Seq<char> {
    if l.len() > 0 && l.last() == '\r' {
        l.drop_last()
    } else {
        l
    }
}

/// The lines of `s`: split at every `\n`, each line stripped of one
/// trailing `\r`; a trailing newline does not produce a final empty
/// line.
pub open spec fn spec_lines(s: Seq<char>) -> Seq<Seq<char>>
    decreases s.len(),
{
    if s.len() == 0 {
        Seq::empty()
    } else {
        match find_char(s, '\n') {
            Some(j) => {
                proof {
                    lemma_find_char_props(s, '\n');
                }
                seq![strip_cr(s.take(j))] + spec_lines(s.skip(j + 1))
            },
            None => seq![strip_cr(s)],
        }
    }
}

/// `s` without trailing whitespace.
pub open spec fn trim_end(s: Seq<char>) -> Seq<char>
    decreases s.len(),
{
    if s.len() > 0 && is_ws(s.last()) {
        trim_end(s.drop_last())
    } else {
        s
    }
}

/// `s` without leading quote characters.
pub open spec fn strip_q_start(s: Seq<char>) -> Seq<char>
    decreases s.len(),
{
    if s.len() > 0 && s[0] == '"' {
        strip_q_start(s.skip(1))
    } else {
        s
    }
}

/// `s` without trailing quote characters.
pub open spec fn strip_q_end(s: Seq<char>) -> Seq<char>
    decreases s.len(),
{
    if s.len() > 0 && s.last() == '"' {
        strip_q_end(s.drop_last())
    } else {
        s
    }
}

/// A token cleaned as the reader cleans keys, values and tags:
/// surrounding whitespace removed, then surrounding quotes removed.
pub open spec fn spec_clean(s: Seq<char>) -> Seq<char> {
    strip_q_end(strip_q_start(trim_end(skip_ws(s))))
}

/// Split one string of the descriptor's text into its lines.
fn split_lines(s: &str) -> (r: Vec<String>)
    ensures
        strings_view(r@) == spec_lines(s@),
    decreases s@.len(),
{
    let n = s.unicode_len();
    let mut out: Vec<String> = Vec::new();
    if n == 0 {
        proof {
            assert(strings_view(out@) =~= spec_lines(s@));
        }
        return out;
    }
    match find_char_at(s, '\n') {
        None => {
            let line = chop_cr(s);
            out.push(line);
            proof {
                assert(strings_view(out@) =~= spec_lines(s@));
            }
            out
        },
        Some(j) => {
            proof {
                lemma_find_char_props(s@, '\n');
            }
            let head = s.substring_char(0, j);
            proof {
                assert(head@ =~= s@.take(j as int));
            }
            let line = chop_cr(head);
            let tail = s.substring_char(j + 1, n);
            proof {
                assert(tail@ =~= s@.skip(j + 1));
            }
            let mut rest = split_lines(tail);
            out.push(line);
            out.append(&mut rest);
            proof {
                assert(strings_view(out@) =~= spec_lines(s@));
            }
            out
        },
    }
}

/// Remove one trailing carriage return, if present.
fn chop_cr(s: &str) -> (r: String)
    ensures
        r@ == strip_cr(s@),
{
    let n = s.unicode_len();
    if n > 0 && s.get_char(n - 1) == '\r' {
        let head = s.substring_char(0, n - 1);
        proof {
            assert(head@ =~= s@.drop_last());
        }
        String::from_str(head)
    } else {
        String::from_str(s)
    }
}

/// Remove trailing whitespace.
fn trim_end_str<'a>(s: &'a str) -> (r: &'a str)
    ensures
        r@ == trim_end(s@),
    decreases s@.len(),
{
    let n = s.unicode_len();
    if n > 0 && ws_char(s.get_char(n - 1)) {
        let head = s.substring_char(0, n - 1);
        proof {
            assert(head@ =~= s@.drop_last());
        }
        trim_end_str(head)
    } else {
        s
    }
}

/// Remove leading quote characters.
fn strip_q_start_str<'a>(s: &'a str) -> (r: &'a str)
    ensures
        r@ == strip_q_start(s@),
    decreases s@.len(),
{
    let n = s.unicode_len();
    if n > 0 && s.get_char(0) == '"' {
        let tail = s.substring_char(1, n);
        proof {
            assert(tail@ =~= s@.skip(1));
        }
        strip_q_start_str(tail)
    } else {
        s
    }
}

/// Remove trailing quote characters.
fn strip_q_end_str<'a>(s: &'a str) -> (r: &'a str)
    ensures
        r@ == strip_q_end(s@),
    decreases s@.len(),
{
    let n = s.unicode_len();
    if n > 0 && s.get_char(n - 1) == '"' {
        let head = s.substring_char(0, n - 1);
        proof {
            assert(head@ =~= s@.drop_last());
        }
        strip_q_end_str(head)
    } else {
        s
    }
}

/// Clean one token: trim surrounding whitespace, then strip surrounding
/// quote characters.
fn clean_str<'a>(s: &'a str) -> (r: &'a str)
    ensures
        r@ == spec_clean(s@),
{
    strip_q_end_str(strip_q_start_str(trim_end_str(eat_ws(s))))
}

/// Clean a key/value pair as read from one line: both parts are trimmed
/// of whitespace and stripped of surrounding quotes.
pub fn clean_key_value<'a>(key_values: (&'a str, &'a str)) -> (r: (&'a str, &'a str))
    ensures
        r.0@ == spec_clean(key_values.0@),
        r.1@ == spec_clean(key_values.1@),
{
    let (key, value) = key_values;
    (clean_str(key), clean_str(value))
}

/// Field state while reading lines.
pub struct LineState {
    pub in_block: bool,
    pub name: Option<Seq<char>>,
    pub path: Option<Seq<char>>,
    pub remote_file_id: Option<Seq<char>>,
    pub supported_version: Option<Seq<char>>,
    pub picture: Option<Seq<char>>,
    pub version: Option<Seq<char>>,
    pub tags: Seq<Seq<char>>,
}

/// The state before any line has been read.
pub open spec fn start_state() -> LineState {
    LineState {
        in_block: false,
        name: None,
        path: None,
        remote_file_id: None,
        supported_version: None,
        picture: None,
        version: None,
        tags: Seq::empty(),
    }
}

/// Does this line open the tag block? It must hold a `{`, and the
/// cleaned text before its first `=` must be the `tags` key.
pub open spec fn opens_tag_block(l: Seq<char>) -> bool {
    &&& find_char(l, '{') is Some
    &&& match find_char(l, '=') {
        Some(j) => spec_clean(l.take(j)) == "tags"@,
        None => false,
    }
}

/// Read one line: a `{` line whose key is `tags` opens the tag block
/// and a `}` line closes it (such lines carry no other content, and a
/// `{` line with any other key is skipped, as is every line of the
/// block it opens); inside the block the cleaned line is a tag; outside
/// it, the line is split at its first `=`, both sides are cleaned, and
/// a recognized key sets its field (last occurrence wins). A line
/// without `=` is skipped.
pub open spec fn line_step(st: LineState, l: Seq<char>) -> LineState {
    if find_char(l, '{') is Some {
        if st.in_block || opens_tag_block(l) {
            LineState { in_block: true, ..st }
        } else {
            st
        }
    } else if find_char(l, '}') is Some {
        LineState { in_block: false, ..st }
    } else if st.in_block {
        LineState { tags: st.tags.push(spec_clean(l)), ..st }
    } else {
        match find_char(l, '=') {
            None => st,
            Some(j) => {
                let key = spec_clean(l.take(j));
                let value = spec_clean(l.skip(j + 1));
                if key == "name"@ {
                    LineState { name: Some(value), ..st }
                } else if key == "path"@ {
                    LineState { path: Some(value), ..st }
                } else if key == "supported_version"@ {
                    LineState { supported_version: Some(value), ..st }
                } else if key == "remote_file_id"@ {
                    LineState { remote_file_id: Some(value), ..st }
                } else if key == "picture"@ {
                    LineState { picture: Some(value), ..st }
                } else if key == "version"@ {
                    LineState { version: Some(value), ..st }
                } else {
                    st
                }
            },
        }
    }
}

/// Fold all lines, in order, over the state.
pub open spec fn fold_lines(ls: Seq<Seq<char>>, st: LineState) -> LineState
    decreases ls.len(),
{
    if ls.len() == 0 {
        st
    } else {
        fold_lines(ls.skip(1), line_step(st, ls[0]))
    }
}

/// Validate the final state: the four required fields must have been
/// set, checked in the fixed order `name`, `path`, `remote_file_id`,
/// `supported_version`; the first missing one names the error.
pub open spec fn spec_descriptor_of_lines(st: LineState) -> Result<DescriptorModel, ModErrorKind> {
    match st.name {
        None => Err(ModErrorKind::MissingField("name"@)),
        Some(name) => match st.path {
            None => Err(ModErrorKind::MissingField("path"@)),
            Some(path) => match st.remote_file_id {
                None => Err(ModErrorKind::MissingField("remote_file_id"@)),
                Some(remote_file_id) => match st.supported_version {
                    None => Err(ModErrorKind::MissingField("supported_version"@)),
                    Some(supported_version) => Ok(
                        DescriptorModel {
                            name,
                            path,
                            remote_file_id,
                            supported_version,
                            tags: st.tags,
                            picture: st.picture,
                            version: st.version,
                        },
                    ),
                },
            },
        },
    }
}

/// What the line-oriented reader yields for a descriptor text.
pub open spec fn spec_parse_mod_string(s: Seq<char>) -> Result<DescriptorModel, ModErrorKind> {
    spec_descriptor_of_lines(fold_lines(spec_lines(s), start_state()))
}

/// Spec-level state built from the reader's working variables.
pub open spec fn line_state_model(
    in_block: bool,
    name: Option<String>,
    path: Option<String>,
    remote_file_id: Option<String>,
    supported_version: Option<String>,
    picture: Option<String>,
    version: Option<String>,
    tags: Seq<Seq<char>>,
) -> LineState {
    LineState {
        in_block,
        name: crate::parser::vdf::opt_str_view(name),
        path: crate::parser::vdf::opt_str_view(path),
        remote_file_id: crate::parser::vdf::opt_str_view(remote_file_id),
        supported_version: crate::parser::vdf::opt_str_view(supported_version),
        picture: crate::parser::vdf::opt_str_view(picture),
        version: crate::parser::vdf::opt_str_view(version),
        tags,
    }
}

/// Read one mod descriptor from its whole text, line by line.
///
/// This reader never reports a grammar error: unrecognizable lines are
/// skipped. It fails only when one of the four required fields never
/// appears, with a missing-field error naming the first missing one in
/// the fixed order `name`, `path`, `remote_file_id`,
/// `supported_version`.
#[verifier::loop_isolation(false)]
pub fn parse_mod_string(contents: &str) -> (r: Result<ModDescriptor, ModParseError>)
    ensures
        match spec_parse_mod_string(contents@) {
            Ok(d) => r matches Ok(m) && m@ == d,
            Err(k) => r matches Err(e) && e@ == k,
        },
{
    let lines = split_lines(contents);
    let ghost lv = spec_lines(contents@);
    let mut in_block: bool = false;
    let mut name: Option<String> = None;
    let mut path: Option<String> = None;
    let mut remote_file_id: Option<String> = None;
    let mut supported_version: Option<String> = None;
    let mut picture: Option<String> = None;
    let mut version: Option<String> = None;
    let mut tags: Vec<String> = Vec::new();
    let mut i: usize = 0;
    proof {
        assert(lv.skip(0) =~= lv);
        assert(strings_view(tags@) =~= Seq::<Seq<char>>::empty());
    }
    while i < lines.len()
        invariant
            0 <= i <= lines.len(),
            fold_lines(lv, start_state()) == fold_lines(
                lv.skip(i as int),
                line_state_model(
                    in_block,
                    name,
                    path,
                    remote_file_id,
                    supported_version,
                    picture,
                    version,
                    strings_view(tags@),
                ),
            ),
        decreases lines.len() - i,
    {
        proof {
            assert(lv.skip(i as int)[0] == lv[i as int]);
            assert(lv.skip(i as int).skip(1) =~= lv.skip(i + 1));
            assert(lv[i as int] == lines@[i as int]@);
        }
        let line: &String = &lines[i];
        let l = line.as_str();
        if find_char_at(l, '{').is_some() {
            if !in_block {
                match find_char_at(l, '=') {
                    None => {},
                    Some(j) => {
                        proof {
                            lemma_find_char_props(l@, '=');
                        }
                        let key_raw = l.substring_char(0, j);
                        proof {
                            assert(key_raw@ =~= l@.take(j as int));
                        }
                        let key = clean_str(key_raw);
                        if String::from_str(key) == String::from_str("tags") {
                            in_block = true;
                        }
                    },
                }
            }
        } else if find_char_at(l, '}').is_some() {
            in_block = false;
        } else if in_block {
            let tag = clean_str(l);
            let tag_s = String::from_str(tag);
            proof {
                assert(strings_view(tags@.push(tag_s)) =~= strings_view(tags@).push(tag_s@));
            }
            tags.push(tag_s);
        } else {
            match find_char_at(l, '=') {
                None => {},
                Some(j) => {
                    proof {
                        lemma_find_char_props(l@, '=');
                    }
                    let n = l.unicode_len();
                    let key_raw = l.substring_char(0, j);
                    let value_raw = l.substring_char(j + 1, n);
                    proof {
                        assert(key_raw@ =~= l@.take(j as int));
                        assert(value_raw@ =~= l@.skip(j + 1));
                    }
                    let (key, value) = clean_key_value((key_raw, value_raw));
                    let key_s = String::from_str(key);
                    if key_s == String::from_str("name") {
                        name = Some(String::from_str(value));
                    } else if key_s == String::from_str("path") {
                        path = Some(String::from_str(value));
                    } else if key_s == String::from_str("supported_version") {
                        supported_version = Some(String::from_str(value));
                    } else if key_s == String::from_str("remote_file_id") {
                        remote_file_id = Some(String::from_str(value));
                    } else if key_s == String::from_str("picture") {
                        picture = Some(String::from_str(value));
                    } else if key_s == String::from_str("version") {
                        version = Some(String::from_str(value));
                    }
                },
            }
        }
        i = i + 1;
    }
    proof {
        assert(lv.skip(lines@.len() as int) =~= Seq::<Seq<char>>::empty());
    }
    if name.is_none() {
        return Err(ModParseError::MissingField(String::from_str("name")));
    }
    if path.is_none() {
        return Err(ModParseError::MissingField(String::from_str("path")));
    }
    if remote_file_id.is_none() {
        return Err(ModParseError::MissingField(String::from_str("remote_file_id")));
    }
    if supported_version.is_none() {
        return Err(ModParseError::MissingField(String::from_str("supported_version")));
    }
    Ok(
        ModDescriptor {
            name: name.unwrap(),
            path: path.unwrap(),
            remote_file_id: remote_file_id.unwrap(),
            supported_version: supported_version.unwrap(),
            tags,
            picture,
            version,
        },
    )
}

} // verus!
