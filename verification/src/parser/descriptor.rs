//! Parser for the mod-descriptor dialect.
//!
//! A descriptor is a flat sequence of entries separated by insignificant
//! whitespace: either `key="value"` (scalar) or `key={ "v1" "v2" ... }`
//! (list). The key is everything up to the `=` sign; values are quoted
//! (possibly empty). Recognized scalar keys fill the descriptor's fields
//! (last occurrence wins); the `tags` list key fills the tag sequence;
//! unrecognized keys are ignored. After parsing, the four required
//! fields — `name`, `path`, `remote_file_id`, `supported_version` — must
//! all have been set; the first missing one (in that order) is reported
//! as a missing-field error naming it.

use vstd::prelude::*;

use crate::errors::{ModErrorKind, ModParseError};
use crate::models::{DescriptorModel, ModDescriptor};
use crate::parser::text::{
    eat_ws, find_char, lemma_find_char_props, lemma_quoted_shrinks, lemma_skip_ws_props, skip_ws,
    spec_quoted, take_quoted,
};

verus! {

/// The value of one descriptor entry: a scalar or a list.
#[derive(Debug)]
pub enum ModValue {
    Single(String),
    List(Vec<String>),
}

/// Spec-level form of a [`ModValue`].
pub enum ModValueModel {
    Single(Seq<char>),
    List(Seq<Seq<char>>),
}

/// Model of a sequence of strings.
pub open spec fn strings_view(v: Seq<String>) -> Seq<Seq<char>> {
    v.map_values(|s: String| s@)
}

impl View for ModValue {
    type V = ModValueModel;

    open spec fn view(&self) -> ModValueModel {
        match self {
            ModValue::Single(s) => ModValueModel::Single(s@),
            ModValue::List(vs) => ModValueModel::List(strings_view(vs@)),
        }
    }
}

/// A key: one or more characters up to (not including) the next `=`.
/// Returns `(rest, key)` with the `=` still unconsumed.
pub open spec fn spec_key(s: Seq<char>) -> Option<(Seq<char>, Seq<char>)> {
    match find_char(s, '=') {
        Some(j) => if j > 0 {
            Some((s.skip(j), s.take(j)))
        } else {
            None
        },
        None => None,
    }
}

/// A scalar entry: `key="value"`.
pub open spec fn spec_key_value(s: Seq<char>) -> Option<(Seq<char>, (Seq<char>, Seq<char>))> {
    match spec_key(s) {
        Some((r, k)) => match spec_quoted(r.skip(1)) {
            Some((r2, v)) => Some((r2, (k, v))),
            None => None,
        },
        None => None,
    }
}

/// Zero or more quoted list items, each preceded by optional
/// whitespace. Never fails.
pub open spec fn spec_list_items(s: Seq<char>) -> (Seq<char>, Seq<Seq<char>>)
    decreases s.len(),
{
    let t = skip_ws(s);
    match spec_quoted(t) {
        None => (s, Seq::empty()),
        Some((r, c)) => {
            proof {
                lemma_skip_ws_props(s);
                lemma_quoted_shrinks(t);
            }
            let rec = spec_list_items(r);
            (rec.0, seq![c] + rec.1)
        },
    }
}

/// A list entry: `key={ "v1" "v2" ... }`.
pub open spec fn spec_block_value(s: Seq<char>) -> Option<(Seq<char>, (Seq<char>, Seq<Seq<char>>))> {
    match spec_key(s) {
        Some((r, k)) => {
            let r1 = r.skip(1);
            if r1.len() > 0 && r1[0] == '{' {
                let rec = spec_list_items(r1.skip(1));
                let t = skip_ws(rec.0);
                if t.len() > 0 && t[0] == '}' {
                    Some((t.skip(1), (k, rec.1)))
                } else {
                    None
                }
            } else {
                None
            }
        },
        None => None,
    }
}

/// One descriptor entry: a list entry if one parses here, otherwise a
/// scalar entry.
pub open spec fn spec_mod_entry(s: Seq<char>) -> Option<(Seq<char>, (Seq<char>, ModValueModel))> {
    match spec_block_value(s) {
        Some((r, p)) => Some((r, (p.0, ModValueModel::List(p.1)))),
        None => match spec_key_value(s) {
            Some((r, p)) => Some((r, (p.0, ModValueModel::Single(p.1)))),
            None => None,
        },
    }
}

pub proof fn lemma_list_items_shrink(s: Seq<char>)
    ensures
        spec_list_items(s).0.len() <= s.len(),
    decreases s.len(),
{
    let t = skip_ws(s);
    lemma_skip_ws_props(s);
    lemma_quoted_shrinks(t);
    match spec_quoted(t) {
        Some(p) => {
            lemma_list_items_shrink(p.0);
        },
        None => {},
    }
}

pub proof fn lemma_mod_entry_shrinks(s: Seq<char>)
    ensures
        spec_mod_entry(s) matches Some(p) ==> p.0.len() < s.len(),
{
    lemma_find_char_props(s, '=');
    match spec_key(s) {
        Some(p) => {
            let r1 = p.0.skip(1);
            lemma_quoted_shrinks(r1);
            if r1.len() > 0 && r1[0] == '{' {
                lemma_list_items_shrink(r1.skip(1));
                lemma_skip_ws_props(spec_list_items(r1.skip(1)).0);
            }
        },
        None => {},
    }
}

/// Zero or more descriptor entries, each preceded by optional whitespace.
pub open spec fn spec_mod_entries(s: Seq<char>) -> (Seq<char>, Seq<(Seq<char>, ModValueModel)>)
    decreases s.len(),
{
    let t = skip_ws(s);
    match spec_mod_entry(t) {
        None => (s, Seq::empty()),
        Some((r, e)) => {
            proof {
                lemma_skip_ws_props(s);
                lemma_mod_entry_shrinks(t);
            }
            let rec = spec_mod_entries(r);
            (rec.0, seq![e] + rec.1)
        },
    }
}

/// Accumulated field state while folding descriptor entries.
pub struct DescriptorState {
    pub name: Option<Seq<char>>,
    pub path: Option<Seq<char>>,
    pub remote_file_id: Option<Seq<char>>,
    pub supported_version: Option<Seq<char>>,
    pub picture: Option<Seq<char>>,
    pub version: Option<Seq<char>>,
    pub tags: Option<Seq<Seq<char>>>,
}

/// The state in which no entry has been seen.
pub open spec fn empty_state() -> DescriptorState {
    DescriptorState {
        name: None,
        path: None,
        remote_file_id: None,
        supported_version: None,
        picture: None,
        version: None,
        tags: None,
    }
}

/// Fold one entry into the state: a recognized scalar key sets its
/// field, the `tags` list key sets the tag sequence, anything else is
/// ignored.
pub open spec fn apply_entry(st: DescriptorState, e: (Seq<char>, ModValueModel)) -> DescriptorState {
    match e.1 {
        ModValueModel::Single(v) => {
            if e.0 == "name"@ {
                DescriptorState { name: Some(v), ..st }
            } else if e.0 == "path"@ {
                DescriptorState { path: Some(v), ..st }
            } else if e.0 == "remote_file_id"@ {
                DescriptorState { remote_file_id: Some(v), ..st }
            } else if e.0 == "supported_version"@ {
                DescriptorState { supported_version: Some(v), ..st }
            } else if e.0 == "picture"@ {
                DescriptorState { picture: Some(v), ..st }
            } else if e.0 == "version"@ {
                DescriptorState { version: Some(v), ..st }
            } else {
                st
            }
        },
        ModValueModel::List(items) => {
            if e.0 == "tags"@ {
                DescriptorState { tags: Some(items), ..st }
            } else {
                st
            }
        },
    }
}

/// Fold all entries, in order, over the state.
pub open spec fn spec_fold_mod_entries(
    es: Seq<(Seq<char>, ModValueModel)>,
    st: DescriptorState,
) -> DescriptorState
    decreases es.len(),
{
    if es.len() == 0 {
        st
    } else {
        spec_fold_mod_entries(es.skip(1), apply_entry(st, es[0]))
    }
}

/// Validate the folded state: the four required fields must have been
/// set, checked in the fixed order `name`, `path`, `remote_file_id`,
/// `supported_version`; the first missing one names the error. An unset
/// tag list becomes the empty sequence; `picture` and `version` stay
/// optional.
pub open spec fn spec_descriptor_of(st: DescriptorState) -> Result<DescriptorModel, ModErrorKind> {
    match st.name {
        None => Err(ModErrorKind::MissingField("name"@)),
        Some(name) => match st.path {
            None => Err(ModErrorKind::MissingField("path"@)),
            Some(path) => match st.remote_file_id {
                None => Err(ModErrorKind::MissingField("remote_file_id"@)),
                Some(remote_file_id) => match st.supported_version {
                    None => Err(ModErrorKind::MissingField("supported_version"@)),
                    Some(supported_version) => Ok(
                        DescriptorModel {
                            name,
                            path,
                            remote_file_id,
                            supported_version,
                            tags: match st.tags {
                                Some(t) => t,
                                None => Seq::empty(),
                            },
                            picture: st.picture,
                            version: st.version,
                        },
                    ),
                },
            },
        },
    }
}

/// What parsing a descriptor yields: the entry sequence must cover the
/// whole text (only whitespace may remain), then the folded state is
/// validated.
pub open spec fn spec_parse_mod_file(s: Seq<char>) -> Result<DescriptorModel, ModErrorKind> {
    let rec = spec_mod_entries(s);
    if skip_ws(rec.0).len() != 0 {
        Err(ModErrorKind::ParseError)
    } else {
        spec_descriptor_of(spec_fold_mod_entries(rec.1, empty_state()))
    }
}

/// The value of the last scalar entry carrying `key`, if any.
pub open spec fn last_scalar(es: Seq<(Seq<char>, ModValueModel)>, key: Seq<char>) -> Option<
    Seq<char>,
>
    decreases es.len(),
{
    if es.len() == 0 {
        None
    } else {
        match last_scalar(es.skip(1), key) {
            Some(v) => Some(v),
            None => match es[0].1 {
                ModValueModel::Single(v) => if es[0].0 == key {
                    Some(v)
                } else {
                    None
                },
                ModValueModel::List(_) => None,
            },
        }
    }
}

/// The items of the last `tags` list entry, if any.
pub open spec fn last_tags(es: Seq<(Seq<char>, ModValueModel)>) -> Option<Seq<Seq<char>>>
    decreases es.len(),
{
    if es.len() == 0 {
        None
    } else {
        match last_tags(es.skip(1)) {
            Some(t) => Some(t),
            None => match es[0].1 {
                ModValueModel::List(t) => if es[0].0 == "tags"@ {
                    Some(t)
                } else {
                    None
                },
                ModValueModel::Single(_) => None,
            },
        }
    }
}

/// Law: folding an entry sequence leaves in every field the value of
/// its last setting entry, or what the field started as when there is
/// none.
#[verifier::rlimit(60)]
pub proof fn lemma_fold_fields(es: Seq<(Seq<char>, ModValueModel)>, st: DescriptorState)
    ensures
        ({
            let f = spec_fold_mod_entries(es, st);
            &&& f.name == (match last_scalar(es, "name"@) {
                Some(v) => Some(v),
                None => st.name,
            })
            &&& f.path == (match last_scalar(es, "path"@) {
                Some(v) => Some(v),
                None => st.path,
            })
            &&& f.remote_file_id == (match last_scalar(es, "remote_file_id"@) {
                Some(v) => Some(v),
                None => st.remote_file_id,
            })
            &&& f.supported_version == (match last_scalar(es, "supported_version"@) {
                Some(v) => Some(v),
                None => st.supported_version,
            })
            &&& f.picture == (match last_scalar(es, "picture"@) {
                Some(v) => Some(v),
                None => st.picture,
            })
            &&& f.version == (match last_scalar(es, "version"@) {
                Some(v) => Some(v),
                None => st.version,
            })
            &&& f.tags == (match last_tags(es) {
                Some(t) => Some(t),
                None => st.tags,
            })
        }),
    decreases es.len(),
{
    lemma_keys_distinct();
    if es.len() > 0 {
        lemma_fold_fields(es.skip(1), apply_entry(st, es[0]));
    }
}

/// The six scalar keys of the descriptor format are pairwise distinct.
pub proof fn lemma_keys_distinct()
    ensures
        "name"@ != "path"@,
        "name"@ != "remote_file_id"@,
        "name"@ != "supported_version"@,
        "name"@ != "picture"@,
        "name"@ != "version"@,
        "path"@ != "remote_file_id"@,
        "path"@ != "supported_version"@,
        "path"@ != "picture"@,
        "path"@ != "version"@,
        "remote_file_id"@ != "supported_version"@,
        "remote_file_id"@ != "picture"@,
        "remote_file_id"@ != "version"@,
        "supported_version"@ != "picture"@,
        "supported_version"@ != "version"@,
        "picture"@ != "version"@,
{
    reveal_strlit("name");
    reveal_strlit("path");
    reveal_strlit("remote_file_id");
    reveal_strlit("supported_version");
    reveal_strlit("picture");
    reveal_strlit("version");
    assert("name"@.len() == 4);
    assert("path"@.len() == 4);
    assert("remote_file_id"@.len() == 14);
    assert("supported_version"@.len() == 17);
    assert("picture"@.len() == 7);
    assert("version"@.len() == 7);
    assert("name"@[0] == 'n');
    assert("path"@[0] == 'p');
    assert("picture"@[0] == 'p');
    assert("version"@[0] == 'v');
}

/// Law: a descriptor text that matches the entry grammar parses by
/// its entries alone. When its entries set all four required keys, the
/// parse succeeds and every field holds the value of its last setting
/// entry (the tag sequence is empty when no `tags` entry appears,
/// never absent); when a required key is never set, the parse fails
/// with a missing-field error naming the first missing one, in the
/// order `name`, `path`, `remote_file_id`, `supported_version`.
pub proof fn lemma_descriptor_fields(s: Seq<char>)
    requires
        skip_ws(spec_mod_entries(s).0).len() == 0,
    ensures
        ({
            let es = spec_mod_entries(s).1;
            let r = spec_parse_mod_file(s);
            &&& (last_scalar(es, "name"@) is None ==> r == Err::<DescriptorModel, ModErrorKind>(
                ModErrorKind::MissingField("name"@),
            ))
            &&& (last_scalar(es, "name"@) is Some && last_scalar(es, "path"@) is None ==> r
                == Err::<DescriptorModel, ModErrorKind>(ModErrorKind::MissingField("path"@)))
            &&& (last_scalar(es, "name"@) is Some && last_scalar(es, "path"@) is Some
                && last_scalar(es, "remote_file_id"@) is None ==> r == Err::<
                DescriptorModel,
                ModErrorKind,
            >(ModErrorKind::MissingField("remote_file_id"@)))
            &&& (last_scalar(es, "name"@) is Some && last_scalar(es, "path"@) is Some
                && last_scalar(es, "remote_file_id"@) is Some && last_scalar(
                es,
                "supported_version"@,
            ) is None ==> r == Err::<DescriptorModel, ModErrorKind>(
                ModErrorKind::MissingField("supported_version"@),
            ))
            &&& (last_scalar(es, "name"@) is Some && last_scalar(es, "path"@) is Some
                && last_scalar(es, "remote_file_id"@) is Some && last_scalar(
                es,
                "supported_version"@,
            ) is Some ==> (r matches Ok(d) && Some(d.name) == last_scalar(es, "name"@) && Some(
                d.path,
            ) == last_scalar(es, "path"@) && Some(d.remote_file_id) == last_scalar(
                es,
                "remote_file_id"@,
            ) && Some(d.supported_version) == last_scalar(es, "supported_version"@) && d.picture
                == last_scalar(es, "picture"@) && d.version == last_scalar(es, "version"@)
                && d.tags == (match last_tags(es) {
                Some(t) => t,
                None => Seq::<Seq<char>>::empty(),
            })))
        }),
{
    lemma_fold_fields(spec_mod_entries(s).1, empty_state());
}

/// Parse a `key="value"` scalar entry: the key is everything before the
/// `=` (at least one character), the value the possibly-empty quoted
/// string both dialects share.
pub fn parse_key_value<'a>(input: &'a str) -> (r: Option<(&'a str, (String, String))>)
    ensures
        match spec_key_value(input@) {
            Some(p) => r matches Some(q) && q.0@ == p.0 && q.1.0@ == p.1.0 && q.1.1@ == p.1.1,
            None => r is None,
        },
{
    match take_key(input) {
        None => None,
        Some((r, k)) => {
            let n = r.unicode_len();
            let r1 = r.substring_char(1, n);
            proof {
                assert(r1@ =~= r@.skip(1));
            }
            match take_quoted(r1) {
                None => None,
                Some((r2, v)) => Some((r2, (k, v))),
            }
        },
    }
}

/// Parse a key off the front of `input`, leaving the `=` unconsumed.
fn take_key<'a>(input: &'a str) -> (r: Option<(&'a str, String)>)
    ensures
        match spec_key(input@) {
            Some(p) => r matches Some(q) && q.0@ == p.0 && q.1@ == p.1 && q.0@.len() > 0 && q.0@[0]
                == '=',
            None => r is None,
        },
{
    match crate::parser::text::find_char_at(input, '=') {
        None => None,
        Some(j) => {
            if j == 0 {
                return None;
            }
            proof {
                lemma_find_char_props(input@, '=');
            }
            let n = input.unicode_len();
            let k = String::from_str(input.substring_char(0, j));
            let rest = input.substring_char(j, n);
            proof {
                assert(rest@ =~= input@.skip(j as int));
                assert(k@ =~= input@.take(j as int));
            }
            Some((rest, k))
        },
    }
}

/// Parse a `key={ "v1" "v2" ... }` list entry, such as the descriptor's
/// tag block. The items are kept in declaration order.
pub fn parse_block_value<'a>(input: &'a str) -> (r: Option<(&'a str, (String, Vec<String>))>)
    ensures
        match spec_block_value(input@) {
            Some(p) => r matches Some(q) && q.0@ == p.0 && q.1.0@ == p.1.0 && strings_view(q.1.1@)
                == p.1.1,
            None => r is None,
        },
{
    match take_key(input) {
        None => None,
        Some((r, key)) => {
            let n = r.unicode_len();
            let r1 = r.substring_char(1, n);
            proof {
                assert(r1@ =~= r@.skip(1));
            }
            let n1 = r1.unicode_len();
            if n1 == 0 {
                return None;
            }
            if r1.get_char(0) != '{' {
                return None;
            }
            let body = r1.substring_char(1, n1);
            let ghost body0 = body@;
            let mut cur = body;
            let mut items: Vec<String> = Vec::new();
            proof {
                assert(body@ =~= r1@.skip(1));
                assert(spec_list_items(body0).1 =~= strings_view(items@) + spec_list_items(
                    cur@,
                ).1);
            }
            loop
                invariant
                    spec_list_items(body0).0 == spec_list_items(cur@).0,
                    spec_list_items(body0).1 == strings_view(items@) + spec_list_items(cur@).1,
                    spec_block_value(input@) matches Some(p) && p.1.0 == key@ && p.1.1
                        == spec_list_items(body0).1 && p.0 == crate::parser::vdf::rest_after_close(
                        spec_list_items(body0).0,
                    ) && !crate::parser::vdf::no_close_after(spec_list_items(body0).0) || (
                    spec_block_value(input@) is None && crate::parser::vdf::no_close_after(
                        spec_list_items(body0).0,
                    )),
                decreases cur@.len(),
            {
                let t = eat_ws(cur);
                match take_quoted(t) {
                    Some((r2, c)) => {
                        proof {
                            lemma_skip_ws_props(cur@);
                            lemma_quoted_shrinks(t@);
                            assert(spec_list_items(cur@).1 =~= seq![c@] + spec_list_items(r2@).1);
                        }
                        items.push(c);
                        proof {
                            assert(strings_view(items@) + spec_list_items(r2@).1
                                =~= spec_list_items(body0).1);
                        }
                        cur = r2;
                    },
                    None => {
                        proof {
                            assert(spec_list_items(cur@).0 == cur@);
                            assert(spec_list_items(body0).1 =~= strings_view(items@));
                        }
                        let nt = t.unicode_len();
                        if nt == 0 {
                            return None;
                        }
                        if t.get_char(0) != '}' {
                            return None;
                        }
                        let rest = t.substring_char(1, nt);
                        proof {
                            assert(rest@ =~= skip_ws(cur@).skip(1));
                        }
                        return Some((rest, (key, items)));
                    },
                }
            }
        },
    }
}

/// Parse one descriptor entry: a list entry if one parses here,
/// otherwise a scalar entry.
fn take_mod_entry<'a>(input: &'a str) -> (r: Option<(&'a str, (String, ModValue))>)
    ensures
        match spec_mod_entry(input@) {
            Some(p) => r matches Some(q) && q.0@ == p.0 && q.1.0@ == p.1.0 && q.1.1@ == p.1.1,
            None => r is None,
        },
{
    match parse_block_value(input) {
        Some((r, kv)) => Some((r, (kv.0, ModValue::List(kv.1)))),
        None => match parse_key_value(input) {
            Some((r, kv)) => Some((r, (kv.0, ModValue::Single(kv.1)))),
            None => None,
        },
    }
}

/// Spec-level state built from the parser's working variables.
pub open spec fn state_model(
    name: Option<String>,
    path: Option<String>,
    remote_file_id: Option<String>,
    supported_version: Option<String>,
    picture: Option<String>,
    version: Option<String>,
    tags: Option<Vec<String>>,
) -> DescriptorState {
    DescriptorState {
        name: crate::parser::vdf::opt_str_view(name),
        path: crate::parser::vdf::opt_str_view(path),
        remote_file_id: crate::parser::vdf::opt_str_view(remote_file_id),
        supported_version: crate::parser::vdf::opt_str_view(supported_version),
        picture: crate::parser::vdf::opt_str_view(picture),
        version: crate::parser::vdf::opt_str_view(version),
        tags: match tags {
            Some(t) => Some(strings_view(t@)),
            None => None,
        },
    }
}

/// Parse the whole text of one mod descriptor.
///
/// The text must be a whitespace-separated sequence of entries reaching
/// to the end of the input; anything else is a parse error. Recognized
/// scalar keys (`name`, `path`, `remote_file_id`, `supported_version`,
/// `picture`, `version`) set the corresponding field, the last
/// occurrence winning; a `tags` list sets the tag sequence verbatim;
/// unrecognized keys are ignored. The four required fields must all be
/// present, or the first missing one (in that fixed order) is reported
/// as a missing-field error naming it.
#[verifier::loop_isolation(false)]
pub fn parse_mod_file(input: &str) -> (r: Result<ModDescriptor, ModParseError>)
    ensures
        match spec_parse_mod_file(input@) {
            Ok(d) => r matches Ok(m) && m@ == d,
            Err(k) => r matches Err(e) && e@ == k,
        },
{
    let ghost all = spec_mod_entries(input@).1;
    let mut cur = input;
    let mut name: Option<String> = None;
    let mut path: Option<String> = None;
    let mut remote_file_id: Option<String> = None;
    let mut supported_version: Option<String> = None;
    let mut picture: Option<String> = None;
    let mut version: Option<String> = None;
    let mut tags: Option<Vec<String>> = None;
    proof {
        assert(spec_fold_mod_entries(all, empty_state()) == spec_fold_mod_entries(
            spec_mod_entries(cur@).1,
            state_model(None, None, None, None, None, None, None),
        ));
    }
    loop
        invariant
            spec_mod_entries(input@).0 == spec_mod_entries(cur@).0,
            spec_fold_mod_entries(all, empty_state()) == spec_fold_mod_entries(
                spec_mod_entries(cur@).1,
                state_model(name, path, remote_file_id, supported_version, picture, version, tags),
            ),
        decreases cur@.len(),
    {
        let t = eat_ws(cur);
        match take_mod_entry(t) {
            Some((r, entry)) => {
                proof {
                    lemma_skip_ws_props(cur@);
                    lemma_mod_entry_shrinks(t@);
                    assert(spec_mod_entries(cur@).1 =~= seq![(entry.0@, entry.1@)]
                        + spec_mod_entries(r@).1);
                    assert(spec_mod_entries(cur@).1.skip(1) =~= spec_mod_entries(r@).1);
                }
                let (key, value) = entry;
                match value {
                    ModValue::Single(v) => {
                        if key == String::from_str("name") {
                            name = Some(v);
                        } else if key == String::from_str("path") {
                            path = Some(v);
                        } else if key == String::from_str("remote_file_id") {
                            remote_file_id = Some(v);
                        } else if key == String::from_str("supported_version") {
                            supported_version = Some(v);
                        } else if key == String::from_str("picture") {
                            picture = Some(v);
                        } else if key == String::from_str("version") {
                            version = Some(v);
                        }
                    },
                    ModValue::List(items) => {
                        if key == String::from_str("tags") {
                            tags = Some(items);
                        }
                    },
                }
                cur = r;
            },
            None => {
                proof {
                    assert(spec_mod_entries(cur@).0 == cur@);
                    assert(spec_mod_entries(cur@).1 =~= Seq::<(Seq<char>, ModValueModel)>::empty());
                }
                let nt = t.unicode_len();
                if nt != 0 {
                    return Err(
                        ModParseError::ParseError(
                            crate::parser::text::describe_failure(
                                "the text does not match the descriptor grammar",
                                t,
                            ),
                        ),
                    );
                }
                if name.is_none() {
                    return Err(ModParseError::MissingField(String::from_str("name")));
                }
                if path.is_none() {
                    return Err(ModParseError::MissingField(String::from_str("path")));
                }
                if remote_file_id.is_none() {
                    return Err(ModParseError::MissingField(String::from_str("remote_file_id")));
                }
                if supported_version.is_none() {
                    return Err(
                        ModParseError::MissingField(String::from_str("supported_version")),
                    );
                }
                let tags_vec: Vec<String> = match tags {
                    Some(t) => t,
                    None => Vec::new(),
                };
                proof {
                    assert(strings_view(Seq::<String>::empty()) =~= Seq::<Seq<char>>::empty());
                }
                return Ok(
                    ModDescriptor {
                        name: name.unwrap(),
                        path: path.unwrap(),
                        remote_file_id: remote_file_id.unwrap(),
                        supported_version: supported_version.unwrap(),
                        tags: tags_vec,
                        picture,
                        version,
                    },
                );
            },
        }
    }
}

} // verus!

