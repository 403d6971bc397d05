//! Parser for the game-library manifest dialect.
//!
//! The manifest is a nested keyed-values text: an outer envelope
//! `"name" { ... }` holding one block per library. Each library block is
//! `"<index>" { ... }` whose entries are either quoted key/value pairs or
//! an `"apps" { ... }` block of application-id/size pairs.
//!
//! Every executable parser is specified against a spec-level grammar
//! function over `Seq<char>`; parsers return `(rest, value)`, the
//! unconsumed remainder first.

use vstd::prelude::*;

use crate::errors::{VdfErrorKind, VdfParseError};
use crate::models::{LibraryModel, LibraryVdf};
use crate::parser::text::{
    describe_failure, eat_ws, is_ws, lemma_quoted_shrinks, lemma_skip_ws_props, parse_u32_str,
    skip_ws, spec_parse_u32, spec_quoted, take_quoted, ws_char,
};

verus! {

/// One entry of a library block: a key/value pair, or a block of pairs
/// (such as the `apps` block).
#[derive(Debug)]
pub enum VdfEntry {
    KeyValue(String, String),
    Block(String, Vec<(String, String)>),
}

/// Spec-level form of a [`VdfEntry`].
pub enum VdfEntryModel {
    KeyValue(Seq<char>, Seq<char>),
    Block(Seq<char>, Seq<(Seq<char>, Seq<char>)>),
}

/// Model of a sequence of string pairs.
pub open spec fn pairs_view(v: Seq<(String, String)>) -> Seq<(Seq<char>, Seq<char>)> {
    v.map_values(|p: (String, String)| (p.0@, p.1@))
}

impl View for VdfEntry {
    type V = VdfEntryModel;

    open spec fn view(&self) -> VdfEntryModel {
        match self {
            VdfEntry::KeyValue(k, v) => VdfEntryModel::KeyValue(k@, v@),
            VdfEntry::Block(k, ps) => VdfEntryModel::Block(k@, pairs_view(ps@)),
        }
    }
}

/// Model of a sequence of entries.
pub open spec fn entries_view(v: Seq<VdfEntry>) -> Seq<VdfEntryModel> {
    v.map_values(|e: VdfEntry| e@)
}

/// Model of a sequence of parsed libraries.
pub open spec fn libs_view(v: Seq<LibraryVdf>) -> Seq<LibraryModel> {
    v.map_values(|l: LibraryVdf| l@)
}

/// At least one whitespace character, then any further whitespace.
pub open spec fn spec_ws1(s: Seq<char>) -> Option<Seq<char>> {
    if s.len() > 0 && is_ws(s[0]) {
        Some(skip_ws(s))
    } else {
        None
    }
}

/// A key/value pair: two quoted strings separated by whitespace.
/// Returns `(rest, (key, value))`.
pub open spec fn spec_kv(s: Seq<char>) -> Option<(Seq<char>, (Seq<char>, Seq<char>))> {
    match spec_quoted(s) {
        Some((r1, k)) => match spec_ws1(r1) {
            Some(r2) => match spec_quoted(r2) {
                Some((r3, v)) => Some((r3, (k, v))),
                None => None,
            },
            None => None,
        },
        None => None,
    }
}

pub proof fn lemma_kv_shrinks(s: Seq<char>)
    ensures
        spec_kv(s) matches Some(p) ==> p.0.len() < s.len(),
{
    lemma_quoted_shrinks(s);
    match spec_quoted(s) {
        Some(p1) => {
            lemma_skip_ws_props(p1.0);
            match spec_ws1(p1.0) {
                Some(r2) => {
                    lemma_quoted_shrinks(r2);
                },
                None => {},
            }
        },
        None => {},
    }
}

/// Zero or more key/value pairs, each preceded by optional whitespace.
/// Never fails; returns the remainder (with the whitespace before the
/// first non-pair still unconsumed) and the pairs in order.
pub open spec fn spec_pairs(s: Seq<char>) -> (Seq<char>, Seq<(Seq<char>, Seq<char>)>)
    decreases s.len(),
{
    let t = skip_ws(s);
    match spec_kv(t) {
        None => (s, Seq::empty()),
        Some((r, kv)) => {
            proof {
                lemma_skip_ws_props(s);
                lemma_kv_shrinks(t);
            }
            let rec = spec_pairs(r);
            (rec.0, seq![kv] + rec.1)
        },
    }
}

/// An `"key" { pairs }` block, e.g. the `apps` block.
/// Returns `(rest, (key, pairs))`.
pub open spec fn spec_apps_block(s: Seq<char>) -> Option<
    (Seq<char>, (Seq<char>, Seq<(Seq<char>, Seq<char>)>)),
> {
    match spec_quoted(s) {
        Some((r1, k)) => match spec_ws1(r1) {
            Some(r2) => {
                if r2.len() > 0 && r2[0] == '{' {
                    let rec = spec_pairs(r2.skip(1));
                    let t = skip_ws(rec.0);
                    if t.len() > 0 && t[0] == '}' {
                        Some((t.skip(1), (k, rec.1)))
                    } else {
                        None
                    }
                } else {
                    None
                }
            },
            None => None,
        },
        None => None,
    }
}

pub proof fn lemma_pairs_shrink(s: Seq<char>)
    ensures
        spec_pairs(s).0.len() <= s.len(),
    decreases s.len(),
{
    let t = skip_ws(s);
    lemma_skip_ws_props(s);
    lemma_kv_shrinks(t);
    match spec_kv(t) {
        Some(p) => {
            lemma_pairs_shrink(p.0);
        },
        None => {},
    }
}

pub proof fn lemma_apps_block_shrinks(s: Seq<char>)
    ensures
        spec_apps_block(s) matches Some(p) ==> p.0.len() < s.len(),
{
    lemma_quoted_shrinks(s);
    match spec_quoted(s) {
        Some(p1) => {
            lemma_skip_ws_props(p1.0);
            match spec_ws1(p1.0) {
                Some(r2) => {
                    if r2.len() > 0 && r2[0] == '{' {
                        lemma_pairs_shrink(r2.skip(1));
                        lemma_skip_ws_props(spec_pairs(r2.skip(1)).0);
                    }
                },
                None => {},
            }
        },
        None => {},
    }
}

/// One entry of a library block: an `apps`-style block if one parses
/// here, otherwise a key/value pair.
pub open spec fn spec_entry(s: Seq<char>) -> Option<(Seq<char>, VdfEntryModel)> {
    match spec_apps_block(s) {
        Some((r, p)) => Some((r, VdfEntryModel::Block(p.0, p.1))),
        None => match spec_kv(s) {
            Some((r, p)) => Some((r, VdfEntryModel::KeyValue(p.0, p.1))),
            None => None,
        },
    }
}

pub proof fn lemma_entry_shrinks(s: Seq<char>)
    ensures
        spec_entry(s) matches Some(p) ==> p.0.len() < s.len(),
{
    lemma_apps_block_shrinks(s);
    lemma_kv_shrinks(s);
}

/// Zero or more entries, each preceded by optional whitespace.
pub open spec fn spec_entries(s: Seq<char>) -> (Seq<char>, Seq<VdfEntryModel>)
    decreases s.len(),
{
    let t = skip_ws(s);
    match spec_entry(t) {
        None => (s, Seq::empty()),
        Some((r, e)) => {
            proof {
                lemma_skip_ws_props(s);
                lemma_entry_shrinks(t);
            }
            let rec = spec_entries(r);
            (rec.0, seq![e] + rec.1)
        },
    }
}

/// The raw shape of one library block: `"<index>" { entries }`.
/// Returns `(rest, (index text, entries))`.
pub open spec fn spec_block_raw(s: Seq<char>) -> Option<
    (Seq<char>, (Seq<char>, Seq<VdfEntryModel>)),
> {
    match spec_quoted(s) {
        Some((r1, idx)) => match spec_ws1(r1) {
            Some(r2) => {
                if r2.len() > 0 && r2[0] == '{' {
                    let rec = spec_entries(r2.skip(1));
                    let t = skip_ws(rec.0);
                    if t.len() > 0 && t[0] == '}' {
                        Some((t.skip(1), (idx, rec.1)))
                    } else {
                        None
                    }
                } else {
                    None
                }
            },
            None => None,
        },
        None => None,
    }
}

pub proof fn lemma_entries_shrink(s: Seq<char>)
    ensures
        spec_entries(s).0.len() <= s.len(),
    decreases s.len(),
{
    let t = skip_ws(s);
    lemma_skip_ws_props(s);
    lemma_entry_shrinks(t);
    match spec_entry(t) {
        Some(p) => {
            lemma_entries_shrink(p.0);
        },
        None => {},
    }
}

pub proof fn lemma_block_raw_shrinks(s: Seq<char>)
    ensures
        spec_block_raw(s) matches Some(p) ==> p.0.len() < s.len(),
{
    lemma_quoted_shrinks(s);
    match spec_quoted(s) {
        Some(p1) => {
            lemma_skip_ws_props(p1.0);
            match spec_ws1(p1.0) {
                Some(r2) => {
                    if r2.len() > 0 && r2[0] == '{' {
                        lemma_entries_shrink(r2.skip(1));
                        lemma_skip_ws_props(spec_entries(r2.skip(1)).0);
                    }
                },
                None => {},
            }
        },
        None => {},
    }
}

/// Parse a quoted string off the front of `input`: a `"`, the enclosed
/// text verbatim, and the closing `"`. Fails when no closing quote is
/// found before the end of the input.
pub fn parse_quoted_string<'a>(input: &'a str) -> (r: Option<(&'a str, String)>)
    ensures
        match spec_quoted(input@) {
            Some(p) => r matches Some(q) && q.0@ == p.0 && q.1@ == p.1,
            None => r is None,
        },
{
    take_quoted(input)
}

/// Parse a `"key" "value"` pair, the two quoted strings separated by at
/// least one whitespace character.
pub fn parse_tabbed_kv_pair<'a>(input: &'a str) -> (r: Option<(&'a str, (String, String))>)
    ensures
        match spec_kv(input@) {
            Some(p) => r matches Some(q) && q.0@ == p.0 && q.1.0@ == p.1.0 && q.1.1@ == p.1.1,
            None => r is None,
        },
{
    match take_quoted(input) {
        None => None,
        Some((r1, k)) => {
            let n1 = r1.unicode_len();
            if n1 == 0 {
                return None;
            }
            if !ws_char(r1.get_char(0)) {
                return None;
            }
            let r2 = eat_ws(r1);
            match take_quoted(r2) {
                None => None,
                Some((r3, v)) => Some((r3, (k, v))),
            }
        },
    }
}

/// Parse a `"key" { "k" "v" ... }` block, such as the manifest's `apps`
/// block listing application ids and their sizes.
pub fn parse_apps_block<'a>(input: &'a str) -> (r: Option<
    (&'a str, (String, Vec<(String, String)>)),
>)
    ensures
        match spec_apps_block(input@) {
            Some(p) => r matches Some(q) && q.0@ == p.0 && q.1.0@ == p.1.0 && pairs_view(q.1.1@)
                == p.1.1,
            None => r is None,
        },
{
    let key_part = take_quoted(input);
    match key_part {
        None => None,
        Some((r1, key)) => {
            let n1 = r1.unicode_len();
            if n1 == 0 {
                return None;
            }
            if !ws_char(r1.get_char(0)) {
                return None;
            }
            let r2 = eat_ws(r1);
            let n2 = r2.unicode_len();
            if n2 == 0 {
                return None;
            }
            if r2.get_char(0) != '{' {
                return None;
            }
            let body = r2.substring_char(1, n2);
            let ghost body0 = body@;
            let mut cur = body;
            let mut items: Vec<(String, String)> = Vec::new();
            proof {
                assert(body@ =~= r2@.skip(1));
                assert(spec_pairs(body0).1 =~= pairs_view(items@) + spec_pairs(cur@).1);
            }
            loop
                invariant
                    spec_pairs(body0).0 == spec_pairs(cur@).0,
                    spec_pairs(body0).1 == pairs_view(items@) + spec_pairs(cur@).1,
                    spec_apps_block(input@) matches Some(p) && p.1.0 == key@ && p.1.1
                        == spec_pairs(body0).1 && p.0 == rest_after_close(spec_pairs(body0).0)
                        && !no_close_after(spec_pairs(body0).0) || (spec_apps_block(input@)
                        is None && no_close_after(spec_pairs(body0).0)),
                decreases cur@.len(),
            {
                let t = eat_ws(cur);
                match parse_tabbed_kv_pair(t) {
                    Some((r, kv)) => {
                        proof {
                            lemma_skip_ws_props(cur@);
                            lemma_kv_shrinks(t@);
                            assert(spec_pairs(cur@).1 =~= seq![(kv.0@, kv.1@)] + spec_pairs(r@).1);
                        }
                        items.push(kv);
                        proof {
                            assert(pairs_view(items@) + spec_pairs(r@).1 =~= spec_pairs(body0).1);
                        }
                        cur = r;
                    },
                    None => {
                        proof {
                            assert(spec_pairs(cur@).0 == cur@);
                            assert(spec_pairs(body0).1 =~= pairs_view(items@));
                        }
                        let nt = t.unicode_len();
                        if nt == 0 {
                            return None;
                        }
                        if t.get_char(0) != '}' {
                            return None;
                        }
                        let rest = t.substring_char(1, nt);
                        proof {
                            assert(rest@ =~= skip_ws(cur@).skip(1));
                        }
                        return Some((rest, (key, items)));
                    },
                }
            }
        },
    }
}

/// The remainder after the closing brace that follows `s` (whitespace,
/// then `}`), assuming there is one.
pub open spec fn rest_after_close(s: Seq<char>) -> Seq<char> {
    skip_ws(s).skip(1)
}

/// After `s`, no closing brace follows: the input ends, or the first
/// non-whitespace character is not `}`.
pub open spec fn no_close_after(s: Seq<char>) -> bool {
    skip_ws(s).len() == 0 || skip_ws(s)[0] != '}'
}

/// Parse the raw shape of one library block off the front of `input`.
fn take_raw_block<'a>(input: &'a str) -> (r: Option<(&'a str, (String, Vec<VdfEntry>))>)
    ensures
        match spec_block_raw(input@) {
            Some(p) => r matches Some(q) && q.0@ == p.0 && q.1.0@ == p.1.0 && entries_view(q.1.1@)
                == p.1.1,
            None => r is None,
        },
{
    match take_quoted(input) {
        None => None,
        Some((r1, idx_text)) => {
            let n1 = r1.unicode_len();
            if n1 == 0 {
                return None;
            }
            if !ws_char(r1.get_char(0)) {
                return None;
            }
            let r2 = eat_ws(r1);
            let n2 = r2.unicode_len();
            if n2 == 0 {
                return None;
            }
            if r2.get_char(0) != '{' {
                return None;
            }
            let body = r2.substring_char(1, n2);
            let ghost body0 = body@;
            let mut cur = body;
            let mut items: Vec<VdfEntry> = Vec::new();
            proof {
                assert(body@ =~= r2@.skip(1));
                assert(spec_entries(body0).1 =~= entries_view(items@) + spec_entries(cur@).1);
            }
            loop
                invariant
                    spec_entries(body0).0 == spec_entries(cur@).0,
                    spec_entries(body0).1 == entries_view(items@) + spec_entries(cur@).1,
                    spec_block_raw(input@) matches Some(p) && p.1.0 == idx_text@ && p.1.1
                        == spec_entries(body0).1 && p.0 == rest_after_close(spec_entries(body0).0)
                        && !no_close_after(spec_entries(body0).0) || (spec_block_raw(input@)
                        is None && no_close_after(spec_entries(body0).0)),
                decreases cur@.len(),
            {
                let t = eat_ws(cur);
                let parsed: Option<(&str, VdfEntry)> = match parse_apps_block(t) {
                    Some((r, kp)) => Some((r, VdfEntry::Block(kp.0, kp.1))),
                    None => match parse_tabbed_kv_pair(t) {
                        Some((r, kv)) => Some((r, VdfEntry::KeyValue(kv.0, kv.1))),
                        None => None,
                    },
                };
                match parsed {
                    Some((r, entry)) => {
                        proof {
                            lemma_skip_ws_props(cur@);
                            lemma_entry_shrinks(t@);
                            assert(spec_entries(cur@).1 =~= seq![entry@] + spec_entries(r@).1);
                        }
                        items.push(entry);
                        proof {
                            assert(entries_view(items@) + spec_entries(r@).1 =~= spec_entries(
                                body0,
                            ).1);
                        }
                        cur = r;
                    },
                    None => {
                        proof {
                            assert(spec_entries(cur@).0 == cur@);
                            assert(spec_entries(body0).1 =~= entries_view(items@));
                        }
                        let nt = t.unicode_len();
                        if nt == 0 {
                            return None;
                        }
                        if t.get_char(0) != '}' {
                            return None;
                        }
                        let rest = t.substring_char(1, nt);
                        proof {
                            assert(rest@ =~= skip_ws(cur@).skip(1));
                        }
                        return Some((rest, (idx_text, items)));
                    },
                }
            }
        },
    }
}

/// The application ids of an `apps` block, in declaration order: each
/// pair's key parsed as a decimal `u32`. The first key that is not a valid
/// numeral is the error.
pub open spec fn spec_ids(pairs: Seq<(Seq<char>, Seq<char>)>) -> Result<Seq<u32>, Seq<char>>
    decreases pairs.len(),
{
    if pairs.len() == 0 {
        Ok(Seq::empty())
    } else {
        match spec_parse_u32(pairs[0].0) {
            None => Err(pairs[0].0),
            Some(v) => match spec_ids(pairs.skip(1)) {
                Ok(rest) => Ok(seq![v] + rest),
                Err(t) => Err(t),
            },
        }
    }
}

/// Spec-level view of an `Option<String>`.
pub open spec fn opt_str_view(o: Option<String>) -> Option<Seq<char>> {
    match o {
        Some(s) => Some(s@),
        None => None,
    }
}

/// Fold the entries of a library block, in order, over an accumulated
/// state: a `path` key/value pair sets the path (the last occurrence
/// wins); each `apps` block appends its application ids; every other
/// entry is ignored. The first invalid application id is fatal.
pub open spec fn spec_fold_entries(
    es: Seq<VdfEntryModel>,
    path: Option<Seq<char>>,
    apps: Seq<u32>,
) -> Result<(Option<Seq<char>>, Seq<u32>), VdfErrorKind>
    decreases es.len(),
{
    if es.len() == 0 {
        Ok((path, apps))
    } else {
        match es[0] {
            VdfEntryModel::KeyValue(k, v) => spec_fold_entries(
                es.skip(1),
                if k == "path"@ {
                    Some(v)
                } else {
                    path
                },
                apps,
            ),
            VdfEntryModel::Block(k, ps) => if k == "apps"@ {
                match spec_ids(ps) {
                    Ok(ids) => spec_fold_entries(es.skip(1), path, apps + ids),
                    Err(t) => Err(VdfErrorKind::InvalidNumber(t)),
                }
            } else {
                spec_fold_entries(es.skip(1), path, apps)
            },
        }
    }
}

/// Meaning of one raw library block: its index text parsed as a `u32`,
/// its entries folded by [`spec_fold_entries`]. A block whose `path` was
/// never set to a non-empty value fails with a missing-field error
/// naming `path`; a bad index or application id fails with an
/// invalid-number error carrying the offending text.
pub open spec fn spec_block_sem(idx_text: Seq<char>, es: Seq<VdfEntryModel>) -> Result<
    LibraryModel,
    VdfErrorKind,
> {
    match spec_parse_u32(idx_text) {
        None => Err(VdfErrorKind::InvalidNumber(idx_text)),
        Some(idx) => match spec_fold_entries(es, None, Seq::empty()) {
            Err(e) => Err(e),
            Ok(st) => match st.0 {
                Some(path) => if path.len() > 0 {
                    Ok(LibraryModel { idx, path, apps: st.1 })
                } else {
                    Err(VdfErrorKind::MissingField("path"@))
                },
                None => Err(VdfErrorKind::MissingField("path"@)),
            },
        },
    }
}

/// What parsing one library block yields: the raw grammar of
/// [`spec_block_raw`] (text after the block's closing brace is ignored),
/// then the meaning given by [`spec_block_sem`].
pub open spec fn spec_parse_vdf_block(s: Seq<char>) -> Result<LibraryModel, VdfErrorKind> {
    match spec_block_raw(s) {
        Some((rest, b)) => spec_block_sem(b.0, b.1),
        None => Err(VdfErrorKind::ParseError),
    }
}

/// Zero or more raw library blocks, each preceded by optional whitespace.
pub open spec fn spec_blocks(s: Seq<char>) -> (Seq<char>, Seq<(Seq<char>, Seq<VdfEntryModel>)>)
    decreases s.len(),
{
    let t = skip_ws(s);
    match spec_block_raw(t) {
        None => (s, Seq::empty()),
        Some((r, b)) => {
            proof {
                lemma_skip_ws_props(s);
                lemma_block_raw_shrinks(t);
            }
            let rec = spec_blocks(r);
            (rec.0, seq![b] + rec.1)
        },
    }
}

/// The manifest envelope: a quoted name, whitespace, then `{ blocks }`.
/// Returns the remainder after the closing brace and the raw blocks in
/// file order.
pub open spec fn spec_manifest_blocks(s: Seq<char>) -> Option<
    (Seq<char>, Seq<(Seq<char>, Seq<VdfEntryModel>)>),
> {
    match spec_quoted(s) {
        Some((r1, name)) => match spec_ws1(r1) {
            Some(r2) => {
                if r2.len() > 0 && r2[0] == '{' {
                    let rec = spec_blocks(r2.skip(1));
                    let t = skip_ws(rec.0);
                    if t.len() > 0 && t[0] == '}' {
                        Some((t.skip(1), rec.1))
                    } else {
                        None
                    }
                } else {
                    None
                }
            },
            None => None,
        },
        None => None,
    }
}

/// Meaning of the whole manifest: every raw block in file order, each
/// through [`spec_block_sem`]; the first failing block's error is the
/// result.
pub open spec fn spec_map_blocks(bs: Seq<(Seq<char>, Seq<VdfEntryModel>)>) -> Result<
    Seq<LibraryModel>,
    VdfErrorKind,
>
    decreases bs.len(),
{
    if bs.len() == 0 {
        Ok(Seq::empty())
    } else {
        match spec_block_sem(bs[0].0, bs[0].1) {
            Err(e) => Err(e),
            Ok(l) => match spec_map_blocks(bs.skip(1)) {
                Ok(ls) => Ok(seq![l] + ls),
                Err(e) => Err(e),
            },
        }
    }
}

/// What parsing a manifest yields: the envelope must parse and nothing
/// but whitespace may follow it; then every block's meaning, in file
/// order. An empty manifest (no blocks) yields the empty sequence.
pub open spec fn spec_parse_vdf_file(s: Seq<char>) -> Result<Seq<LibraryModel>, VdfErrorKind> {
    match spec_manifest_blocks(s) {
        None => Err(VdfErrorKind::ParseError),
        Some((rest, bs)) => if skip_ws(rest).len() == 0 {
            spec_map_blocks(bs)
        } else {
            Err(VdfErrorKind::ParseError)
        },
    }
}

/// Parse every key of an `apps` block as a decimal application id.
fn parse_id_list(pairs: &Vec<(String, String)>) -> (r: Result<Vec<u32>, String>)
    ensures
        match spec_ids(pairs_view(pairs@)) {
            Ok(ids) => r matches Ok(v) && v@ == ids,
            Err(t) => r matches Err(s) && s@ == t,
        },
{
    let ghost pv = pairs_view(pairs@);
    let mut acc: Vec<u32> = Vec::new();
    let mut i: usize = 0;
    proof {
        assert(pv.skip(0) =~= pv);
        assert(acc@ + spec_ids_items(pv) =~= spec_ids_items(pv));
    }
    while i < pairs.len()
        invariant
            0 <= i <= pairs.len(),
            pv == pairs_view(pairs@),
            spec_ids(pv) == (match spec_ids(pv.skip(i as int)) {
                Ok(ids) => Ok::<Seq<u32>, Seq<char>>(acc@ + ids),
                Err(t) => Err::<Seq<u32>, Seq<char>>(t),
            }),
        decreases pairs.len() - i,
    {
        proof {
            assert(pv.skip(i as int)[0] == pv[i as int]);
            assert(pv.skip(i as int).skip(1) =~= pv.skip(i + 1));
        }
        let id_str: &String = &pairs[i].0;
        match parse_u32_str(id_str.as_str()) {
            None => {
                return Err(id_str.clone());
            },
            Some(v) => {
                proof {
                    match spec_ids(pv.skip(i + 1)) {
                        Ok(rest) => {
                            assert(acc@ + (seq![v] + rest) =~= acc@.push(v) + rest);
                        },
                        Err(_) => {},
                    }
                }
                acc.push(v);
                i = i + 1;
            },
        }
    }
    proof {
        assert(pv.skip(pairs@.len() as int) =~= Seq::<(Seq<char>, Seq<char>)>::empty());
        assert(acc@ + Seq::<u32>::empty() =~= acc@);
    }
    Ok(acc)
}

/// The items of a successful [`spec_ids`], used only to phrase proofs.
pub open spec fn spec_ids_items(pairs: Seq<(Seq<char>, Seq<char>)>) -> Seq<u32> {
    match spec_ids(pairs) {
        Ok(ids) => ids,
        Err(_) => Seq::empty(),
    }
}

/// Fold the entries of one library block into its `LibraryVdf` record.
#[verifier::loop_isolation(false)]
fn vdf_block_sem(idx_text: String, entries: &Vec<VdfEntry>) -> (r: Result<
    LibraryVdf,
    VdfParseError,
>)
    ensures
        match spec_block_sem(idx_text@, entries_view(entries@)) {
            Ok(l) => r matches Ok(lib) && lib@ == l,
            Err(k) => r matches Err(e) && e@ == k,
        },
{
    let ghost ev = entries_view(entries@);
    let idx: u32 = match parse_u32_str(idx_text.as_str()) {
        None => {
            return Err(VdfParseError::InvalidNumber(idx_text));
        },
        Some(i) => i,
    };
    let mut path_val: Option<String> = None;
    let mut apps: Vec<u32> = Vec::new();
    let mut i: usize = 0;
    proof {
        assert(ev.skip(0) =~= ev);
    }
    while i < entries.len()
        invariant
            0 <= i <= entries.len(),
            ev == entries_view(entries@),
            spec_fold_entries(ev, None, Seq::empty()) == spec_fold_entries(
                ev.skip(i as int),
                opt_str_view(path_val),
                apps@,
            ),
        decreases entries.len() - i,
    {
        proof {
            assert(ev.skip(i as int)[0] == ev[i as int]);
            assert(ev.skip(i as int).skip(1) =~= ev.skip(i + 1));
        }
        let entry = &entries[i];
        match entry {
            VdfEntry::KeyValue(k, v) => {
                let path_key = String::from_str("path");
                if *k == path_key {
                    path_val = Some(v.clone());
                }
            },
            VdfEntry::Block(k, ps) => {
                let apps_key = String::from_str("apps");
                if *k == apps_key {
                    match parse_id_list(ps) {
                        Ok(ids) => {
                            let mut ids_vec = ids;
                            apps.append(&mut ids_vec);
                        },
                        Err(t) => {
                            return Err(VdfParseError::InvalidNumber(t));
                        },
                    }
                }
            },
        }
        i = i + 1;
    }
    proof {
        assert(ev.skip(entries@.len() as int) =~= Seq::<VdfEntryModel>::empty());
    }
    match path_val {
        None => Err(VdfParseError::MissingField(String::from_str("path"))),
        Some(p) => {
            if p.unicode_len() == 0 {
                Err(VdfParseError::MissingField(String::from_str("path")))
            } else {
                Ok(LibraryVdf { idx, path: p, apps })
            }
        },
    }
}

/// Parse one library block: `"<index>" { entries }`. A `path` entry sets
/// the library path (last occurrence wins; it must end up non-empty),
/// the keys of each `apps` block are the application ids, and any other
/// entry is ignored. Text after the block's closing brace is ignored.
pub fn parse_vdf_block(input: &str) -> (r: Result<LibraryVdf, VdfParseError>)
    ensures
        match spec_parse_vdf_block(input@) {
            Ok(l) => r matches Ok(lib) && lib@ == l,
            Err(k) => r matches Err(e) && e@ == k,
        },
{
    match take_raw_block(input) {
        None => Err(
            VdfParseError::ParseError(
                describe_failure("the text does not match the library-block grammar", input),
            ),
        ),
        Some((_rest, b)) => vdf_block_sem(b.0, &b.1),
    }
}

/// Parse a whole library manifest into its libraries, in file order.
///
/// The envelope is a quoted name followed by `{ ... }` holding zero or
/// more library blocks; only whitespace may follow it. A manifest with no
/// blocks yields an empty list. A malformed manifest fails with a parse
/// error; a bad index or application id fails with an invalid-number
/// error; a block without a (non-empty) `path` fails with a
/// missing-field error naming `path`.
pub fn parse_vdf_file(input: &str) -> (r: Result<Vec<LibraryVdf>, VdfParseError>)
    ensures
        match spec_parse_vdf_file(input@) {
            Ok(ls) => r matches Ok(v) && libs_view(v@) == ls,
            Err(k) => r matches Err(e) && e@ == k,
        },
{
    let grammar_err = "the text does not match the library-manifest grammar";
    match take_quoted(input) {
        None => Err(VdfParseError::ParseError(describe_failure(grammar_err, input))),
        Some((r1, _name)) => {
            let n1 = r1.unicode_len();
            if n1 == 0 {
                return Err(VdfParseError::ParseError(describe_failure(grammar_err, r1)));
            }
            if !ws_char(r1.get_char(0)) {
                return Err(VdfParseError::ParseError(describe_failure(grammar_err, r1)));
            }
            let r2 = eat_ws(r1);
            let n2 = r2.unicode_len();
            if n2 == 0 {
                return Err(VdfParseError::ParseError(describe_failure(grammar_err, r2)));
            }
            if r2.get_char(0) != '{' {
                return Err(VdfParseError::ParseError(describe_failure(grammar_err, r2)));
            }
            let body = r2.substring_char(1, n2);
            let ghost body0 = body@;
            let mut cur = body;
            let mut raw: Vec<(String, Vec<VdfEntry>)> = Vec::new();
            proof {
                assert(body@ =~= r2@.skip(1));
                assert(spec_blocks(body0).1 =~= blocks_view(raw@) + spec_blocks(cur@).1);
            }
            loop
                invariant
                    spec_blocks(body0).0 == spec_blocks(cur@).0,
                    spec_blocks(body0).1 == blocks_view(raw@) + spec_blocks(cur@).1,
                    spec_manifest_blocks(input@) matches Some(p) && p.1 == spec_blocks(body0).1
                        && p.0 == rest_after_close(spec_blocks(body0).0) && !no_close_after(
                        spec_blocks(body0).0,
                    ) || (spec_manifest_blocks(input@) is None && no_close_after(
                        spec_blocks(body0).0,
                    )),
                decreases cur@.len(),
            {
                let t = eat_ws(cur);
                match take_raw_block(t) {
                    Some((r, b)) => {
                        proof {
                            lemma_skip_ws_props(cur@);
                            lemma_block_raw_shrinks(t@);
                            assert(spec_blocks(cur@).1 =~= seq![(b.0@, entries_view(b.1@))]
                                + spec_blocks(r@).1);
                        }
                        raw.push(b);
                        proof {
                            assert(blocks_view(raw@) + spec_blocks(r@).1 =~= spec_blocks(body0).1);
                        }
                        cur = r;
                    },
                    None => {
                        proof {
                            assert(spec_blocks(cur@).0 == cur@);
                            assert(spec_blocks(body0).1 =~= blocks_view(raw@));
                        }
                        let nt = t.unicode_len();
                        if nt == 0 {
                            return Err(VdfParseError::ParseError(describe_failure(grammar_err, t)));
                        }
                        if t.get_char(0) != '}' {
                            return Err(VdfParseError::ParseError(describe_failure(grammar_err, t)));
                        }
                        let rest = t.substring_char(1, nt);
                        proof {
                            assert(rest@ =~= skip_ws(cur@).skip(1));
                        }
                        let fin = eat_ws(rest);
                        if fin.unicode_len() != 0 {
                            return Err(
                                VdfParseError::ParseError(describe_failure(grammar_err, fin)),
                            );
                        }
                        return map_raw_blocks(&raw);
                    },
                }
            }
        },
    }
}

/// Model of a sequence of raw blocks.
pub open spec fn blocks_view(v: Seq<(String, Vec<VdfEntry>)>) -> Seq<
    (Seq<char>, Seq<VdfEntryModel>),
> {
    v.map_values(|b: (String, Vec<VdfEntry>)| (b.0@, entries_view(b.1@)))
}

/// Give every raw block its meaning, stopping at the first error.
fn map_raw_blocks(raw: &Vec<(String, Vec<VdfEntry>)>) -> (r: Result<Vec<LibraryVdf>, VdfParseError>)
    ensures
        match spec_map_blocks(blocks_view(raw@)) {
            Ok(ls) => r matches Ok(v) && libs_view(v@) == ls,
            Err(k) => r matches Err(e) && e@ == k,
        },
{
    let ghost bv = blocks_view(raw@);
    let mut acc: Vec<LibraryVdf> = Vec::new();
    let mut i: usize = 0;
    proof {
        assert(bv.skip(0) =~= bv);
        match spec_map_blocks(bv) {
            Ok(ls) => {
                assert(libs_view(acc@) + ls =~= ls);
            },
            Err(_) => {},
        }
    }
    while i < raw.len()
        invariant
            0 <= i <= raw.len(),
            bv == blocks_view(raw@),
            spec_map_blocks(bv) == (match spec_map_blocks(bv.skip(i as int)) {
                Ok(ls) => Ok::<Seq<LibraryModel>, VdfErrorKind>(libs_view(acc@) + ls),
                Err(e) => Err::<Seq<LibraryModel>, VdfErrorKind>(e),
            }),
        decreases raw.len() - i,
    {
        proof {
            assert(bv.skip(i as int)[0] == bv[i as int]);
            assert(bv.skip(i as int).skip(1) =~= bv.skip(i + 1));
        }
        let b = &raw[i];
        match vdf_block_sem(b.0.clone(), &b.1) {
            Err(e) => {
                return Err(e);
            },
            Ok(lib) => {
                proof {
                    match spec_map_blocks(bv.skip(i + 1)) {
                        Ok(ls) => {
                            assert(libs_view(acc@.push(lib)) =~= libs_view(acc@) + seq![lib@]);
                            assert(libs_view(acc@) + (seq![lib@] + ls) =~= libs_view(acc@.push(lib))
                                + ls);
                        },
                        Err(_) => {},
                    }
                }
                acc.push(lib);
                i = i + 1;
            },
        }
    }
    proof {
        assert(bv.skip(raw@.len() as int) =~= Seq::<(Seq<char>, Seq<VdfEntryModel>)>::empty());
        assert(libs_view(acc@) + Seq::<LibraryModel>::empty() =~= libs_view(acc@));
    }
    Ok(acc)
}

/// The libraries of a successful [`spec_map_blocks`], used only to
/// phrase proofs.
pub open spec fn spec_map_blocks_items(bs: Seq<(Seq<char>, Seq<VdfEntryModel>)>) -> Seq<
    LibraryModel,
> {
    match spec_map_blocks(bs) {
        Ok(ls) => ls,
        Err(_) => Seq::empty(),
    }
}

/// Law: when every block of a manifest has a meaning, the result has
/// exactly one library per block, in order, each its block's meaning.
pub proof fn lemma_map_blocks_counts(bs: Seq<(Seq<char>, Seq<VdfEntryModel>)>)
    ensures
        spec_map_blocks(bs) matches Ok(ls) ==> ls.len() == bs.len() && (forall|i: int|
            0 <= i < bs.len() ==> spec_block_sem(bs[i].0, bs[i].1) == Ok::<
                LibraryModel,
                VdfErrorKind,
            >(ls[i])),
    decreases bs.len(),
{
    if bs.len() > 0 {
        lemma_map_blocks_counts(bs.skip(1));
        assert(forall|i: int| 0 <= i < bs.skip(1).len() ==> bs.skip(1)[i] == bs[i + 1]);
    }
}

/// Law: a well-formed manifest with N library blocks parses to exactly
/// N libraries, in file order, the i-th library being the meaning of
/// the i-th block.
pub proof fn lemma_manifest_block_count(
    s: Seq<char>,
    rest: Seq<char>,
    bs: Seq<(Seq<char>, Seq<VdfEntryModel>)>,
)
    requires
        spec_manifest_blocks(s) == Some((rest, bs)),
        skip_ws(rest).len() == 0,
    ensures
        spec_parse_vdf_file(s) matches Ok(ls) ==> ls.len() == bs.len() && (forall|i: int|
            0 <= i < bs.len() ==> spec_block_sem(bs[i].0, bs[i].1) == Ok::<
                LibraryModel,
                VdfErrorKind,
            >(ls[i])),
{
    lemma_map_blocks_counts(bs);
}

/// Law: a well-formed apps block of K pairs yields exactly K
/// application ids, the i-th id being the decimal value of the i-th key.
pub proof fn lemma_ids_count(pairs: Seq<(Seq<char>, Seq<char>)>)
    ensures
        spec_ids(pairs) matches Ok(ids) ==> ids.len() == pairs.len() && (forall|i: int|
            0 <= i < pairs.len() ==> spec_parse_u32(pairs[i].0) == Some(ids[i])),
    decreases pairs.len(),
{
    if pairs.len() > 0 {
        lemma_ids_count(pairs.skip(1));
        assert(forall|i: int| 0 <= i < pairs.skip(1).len() ==> pairs.skip(1)[i] == pairs[i + 1]);
    }
}

/// Is this entry an `apps` block?
pub open spec fn is_apps_entry(e: VdfEntryModel) -> bool {
    e matches VdfEntryModel::Block(k, _) && k == "apps"@
}

/// The application ids contributed by all `apps` blocks of an entry
/// sequence, in order, each block's pairs read by [`spec_ids`].
pub open spec fn block_app_ids(es: Seq<VdfEntryModel>) -> Seq<u32>
    decreases es.len(),
{
    if es.len() == 0 {
        Seq::empty()
    } else {
        let rest = block_app_ids(es.skip(1));
        match es[0] {
            VdfEntryModel::Block(k, ps) => if k == "apps"@ {
                spec_ids_items(ps) + rest
            } else {
                rest
            },
            VdfEntryModel::KeyValue(_, _) => rest,
        }
    }
}

/// Law: a successful fold accumulates exactly the ids of the entry
/// sequence's `apps` blocks, after whatever was already accumulated.
pub proof fn lemma_fold_apps(es: Seq<VdfEntryModel>, path0: Option<Seq<char>>, apps0: Seq<u32>)
    ensures
        spec_fold_entries(es, path0, apps0) matches Ok(st) ==> st.1 == apps0 + block_app_ids(es),
    decreases es.len(),
{
    if es.len() == 0 {
        assert(apps0 + block_app_ids(es) =~= apps0);
    } else {
        match es[0] {
            VdfEntryModel::KeyValue(k, v) => {
                lemma_fold_apps(
                    es.skip(1),
                    if k == "path"@ {
                        Some(v)
                    } else {
                        path0
                    },
                    apps0,
                );
            },
            VdfEntryModel::Block(k, ps) => {
                if k == "apps"@ {
                    match spec_ids(ps) {
                        Ok(ids) => {
                            lemma_fold_apps(es.skip(1), path0, apps0 + ids);
                            assert((apps0 + ids) + block_app_ids(es.skip(1)) =~= apps0 + (ids
                                + block_app_ids(es.skip(1))));
                        },
                        Err(_) => {},
                    }
                } else {
                    lemma_fold_apps(es.skip(1), path0, apps0);
                }
            },
        }
    }
}

/// Law: an entry sequence without `apps` blocks contributes no ids.
pub proof fn lemma_no_apps_ids(es: Seq<VdfEntryModel>)
    requires
        forall|j: int| 0 <= j < es.len() ==> !is_apps_entry(#[trigger] es[j]),
    ensures
        block_app_ids(es) == Seq::<u32>::empty(),
    decreases es.len(),
{
    if es.len() > 0 {
        assert(forall|i: int| 0 <= i < es.skip(1).len() ==> es.skip(1)[i] == es[i + 1]);
        lemma_no_apps_ids(es.skip(1));
    }
}

/// Law: a library block holding exactly one `apps` block, of K
/// well-formed pairs, has exactly K application ids: the decimal values
/// of the block's keys, in order.
pub proof fn lemma_single_apps_members(
    idx_text: Seq<char>,
    es: Seq<VdfEntryModel>,
    i: int,
    ps: Seq<(Seq<char>, Seq<char>)>,
)
    requires
        0 <= i < es.len(),
        es[i] == VdfEntryModel::Block("apps"@, ps),
        forall|j: int| 0 <= j < es.len() && j != i ==> !is_apps_entry(#[trigger] es[j]),
    ensures
        spec_block_sem(idx_text, es) matches Ok(l) ==> l.apps.len() == ps.len() && (forall|m: int|
            0 <= m < ps.len() ==> spec_parse_u32(ps[m].0) == Some(l.apps[m])),
{
    lemma_fold_apps(es, None, Seq::empty());
    lemma_single_apps_ids(es, i, ps);
    lemma_ids_count(ps);
    match spec_fold_entries(es, None, Seq::empty()) {
        Ok(st) => {
            lemma_fold_ok_ids_ok(es, None, Seq::empty(), i, ps);
            assert(Seq::<u32>::empty() + block_app_ids(es) =~= block_app_ids(es));
        },
        Err(_) => {},
    }
}

/// When the fold of an entry sequence succeeds, the pairs of each of
/// its `apps` blocks read successfully as ids.
pub proof fn lemma_fold_ok_ids_ok(
    es: Seq<VdfEntryModel>,
    path0: Option<Seq<char>>,
    apps0: Seq<u32>,
    i: int,
    ps: Seq<(Seq<char>, Seq<char>)>,
)
    requires
        0 <= i < es.len(),
        es[i] == VdfEntryModel::Block("apps"@, ps),
        spec_fold_entries(es, path0, apps0) is Ok,
    ensures
        spec_ids(ps) is Ok,
    decreases es.len(),
{
    assert(forall|j: int| 0 <= j < es.skip(1).len() ==> es.skip(1)[j] == es[j + 1]);
    if i > 0 {
        match es[0] {
            VdfEntryModel::KeyValue(k, v) => {
                lemma_fold_ok_ids_ok(
                    es.skip(1),
                    if k == "path"@ {
                        Some(v)
                    } else {
                        path0
                    },
                    apps0,
                    i - 1,
                    ps,
                );
            },
            VdfEntryModel::Block(k, ps0) => {
                if k == "apps"@ {
                    match spec_ids(ps0) {
                        Ok(ids) => {
                            lemma_fold_ok_ids_ok(es.skip(1), path0, apps0 + ids, i - 1, ps);
                        },
                        Err(_) => {},
                    }
                } else {
                    lemma_fold_ok_ids_ok(es.skip(1), path0, apps0, i - 1, ps);
                }
            },
        }
    }
}

/// The ids of an entry sequence whose only `apps` block stands at
/// position `i` are exactly that block's ids.
pub proof fn lemma_single_apps_ids(
    es: Seq<VdfEntryModel>,
    i: int,
    ps: Seq<(Seq<char>, Seq<char>)>,
)
    requires
        0 <= i < es.len(),
        es[i] == VdfEntryModel::Block("apps"@, ps),
        forall|j: int| 0 <= j < es.len() && j != i ==> !is_apps_entry(#[trigger] es[j]),
    ensures
        spec_ids(ps) matches Ok(ids) ==> block_app_ids(es) == ids,
    decreases es.len(),
{
    assert(forall|j: int| 0 <= j < es.skip(1).len() ==> es.skip(1)[j] == es[j + 1]);
    if i == 0 {
        lemma_no_apps_ids(es.skip(1));
        match spec_ids(ps) {
            Ok(ids) => {
                assert(ids + Seq::<u32>::empty() =~= ids);
            },
            Err(_) => {},
        }
    } else {
        lemma_single_apps_ids(es.skip(1), i - 1, ps);
        match spec_ids(ps) {
            Ok(ids) => {
                assert(!is_apps_entry(es[0]));
            },
            Err(_) => {},
        }
    }
}

/// The value of the last `path` entry of an entry sequence, if any.
pub open spec fn last_path(es: Seq<VdfEntryModel>) -> Option<Seq<char>>
    decreases es.len(),
{
    if es.len() == 0 {
        None
    } else {
        match last_path(es.skip(1)) {
            Some(v) => Some(v),
            None => match es[0] {
                VdfEntryModel::KeyValue(k, v) => if k == "path"@ {
                    Some(v)
                } else {
                    None
                },
                VdfEntryModel::Block(_, _) => None,
            },
        }
    }
}

/// Law: a successful fold's path is the last `path` entry's value, or
/// what it started as when there is none.
pub proof fn lemma_fold_path(es: Seq<VdfEntryModel>, path0: Option<Seq<char>>, apps0: Seq<u32>)
    ensures
        spec_fold_entries(es, path0, apps0) matches Ok(st) ==> st.0 == (match last_path(es) {
            Some(v) => Some(v),
            None => path0,
        }),
    decreases es.len(),
{
    if es.len() > 0 {
        match es[0] {
            VdfEntryModel::KeyValue(k, v) => {
                lemma_fold_path(
                    es.skip(1),
                    if k == "path"@ {
                        Some(v)
                    } else {
                        path0
                    },
                    apps0,
                );
            },
            VdfEntryModel::Block(k, ps) => {
                if k == "apps"@ {
                    match spec_ids(ps) {
                        Ok(ids) => {
                            lemma_fold_path(es.skip(1), path0, apps0 + ids);
                        },
                        Err(_) => {},
                    }
                } else {
                    lemma_fold_path(es.skip(1), path0, apps0);
                }
            },
        }
    }
}

/// Law: a library block that never sets `path` (and is otherwise
/// well-formed) fails with a missing-field error naming `path`; it
/// never produces a library silently.
pub proof fn lemma_missing_path(idx_text: Seq<char>, es: Seq<VdfEntryModel>)
    requires
        spec_parse_u32(idx_text) is Some,
        last_path(es) is None,
        spec_fold_entries(es, None, Seq::empty()) is Ok,
    ensures
        spec_block_sem(idx_text, es) == Err::<LibraryModel, VdfErrorKind>(
            VdfErrorKind::MissingField("path"@),
        ),
{
    lemma_fold_path(es, None, Seq::empty());
}

/// Law: no parsed library ever carries an empty path.
pub proof fn lemma_library_path_nonempty(idx_text: Seq<char>, es: Seq<VdfEntryModel>)
    ensures
        spec_block_sem(idx_text, es) matches Ok(l) ==> l.path.len() > 0,
{
}

} // verus!
