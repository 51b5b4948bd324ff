//! Release authority: what a cut records and how a stored manifest is named
//! on export. A *freeze* snapshots the model layer; a *ship-cut* adds the full
//! asset reproducibility trail.
use vstd::prelude::*;
use crate::text::{chars_of, extend_chars, extend_str, is_alnum, str_eq, string_of};
use crate::project::ProjectStats;

verus! {

/// A compact summary shown after a cut is taken.
#[derive(Clone, Copy, Debug)]
pub struct ReleaseSummary {
    pub assets: usize,
    pub frozen_models: usize,
    pub prompts: i64,
    pub lore: i64,
}

/// The summary of a cut from the project's counts and the number of models
/// it froze.
pub fn summarize(stats: &ProjectStats, frozen_models: usize) -> (r: ReleaseSummary)
    ensures
        r.assets == stats.assets as usize,
        r.frozen_models == frozen_models,
        r.prompts == stats.prompts,
        r.lore == stats.lore,
{
    ReleaseSummary { assets: stats.assets as usize, frozen_models, prompts: stats.prompts, lore: stats.lore }
}

/// The kind of cut a request names: `shipcut` when it says so, else `freeze`.
pub fn release_kind(kind: &str) -> (r: &'static str)
    ensures
        kind@ == "shipcut"@ ==> r@ == "shipcut"@,
        kind@ != "shipcut"@ ==> r@ == "freeze"@,
{
    if str_eq(kind, "shipcut") {
        "shipcut"
    } else {
        "freeze"
    }
}

/// The rows a model freeze lists: the promoted (NVMe-active) ones, or every
/// row when none is promoted, so that a freeze is never empty on a fresh
/// runtime.
pub open spec fn freeze_spec(statuses: Seq<Seq<char>>) -> Seq<int> {
    let promoted = Seq::new(statuses.len(), |i: int| i).filter(|i: int| statuses[i] == "promoted"@);
    if promoted.len() > 0 {
        promoted
    } else {
        Seq::new(statuses.len(), |i: int| i)
    }
}

/// The indices, in order, of the manifest rows (given by their statuses) that
/// a model freeze lists (see [`freeze_spec`]).
pub fn freeze_selection(statuses: &Vec<String>) -> (r: Vec<usize>)
    ensures
        r@.map_values(|i: usize| i as int) == freeze_spec(statuses@.map_values(|s: String| s@)),
{
    let ghost sv = statuses@.map_values(|s: String| s@);
    let ghost idx = Seq::new(statuses@.len(), |i: int| i);
    let mut promoted: Vec<usize> = Vec::new();
    let mut i: usize = 0;
    while i < statuses.len()
        invariant
            i <= statuses@.len(),
            sv == statuses@.map_values(|s: String| s@),
            idx == Seq::new(statuses@.len(), |i: int| i),
            promoted@.map_values(|k: usize| k as int) == idx.take(i as int).filter(|k: int| sv[k] == "promoted"@),
        decreases statuses@.len() - i,
    {
        proof {
            assert(idx.take(i + 1) =~= idx.take(i as int).push(i as int));
            reveal(Seq::filter);
            assert(idx.take(i + 1).drop_last() =~= idx.take(i as int));
        }
        let ghost before = promoted@;
        if str_eq(statuses[i].as_str(), "promoted") {
            promoted.push(i);
            assert(promoted@.map_values(|k: usize| k as int) =~= before.map_values(|k: usize| k as int).push(i as int));
        }
        i += 1;
    }
    assert(idx.take(statuses@.len() as int) =~= idx);
    if promoted.len() > 0 {
        promoted
    } else {
        let mut all: Vec<usize> = Vec::new();
        let mut j: usize = 0;
        while j < statuses.len()
            invariant
                j <= statuses@.len(),
                all@.len() == j,
                forall|k: int| 0 <= k < j ==> all@[k] == k,
            decreases statuses@.len() - j,
        {
            all.push(j);
            j += 1;
        }
        assert(all@.map_values(|k: usize| k as int) =~= Seq::new(statuses@.len(), |k: int| k));
        assert(promoted@.map_values(|k: usize| k as int).len() == 0);
        all
    }
}

/// A model freeze lists at least one model whenever the manifest has any
/// row, and only rows that exist; when some model is promoted it lists
/// exactly the promoted ones.
pub proof fn law_freeze_never_empty(statuses: Seq<Seq<char>>)
    ensures
        statuses.len() > 0 ==> freeze_spec(statuses).len() > 0,
        forall|k: int| 0 <= k < freeze_spec(statuses).len() ==> 0 <= #[trigger] freeze_spec(statuses)[k] < statuses.len(),
        (exists|i: int| 0 <= i < statuses.len() && statuses[i] == "promoted"@) ==>
            forall|k: int| 0 <= k < freeze_spec(statuses).len() ==> statuses[#[trigger] freeze_spec(statuses)[k]] == "promoted"@,
{
    let idx = Seq::new(statuses.len(), |i: int| i);
    let pred = |i: int| statuses[i] == "promoted"@;
    let promoted = idx.filter(pred);
    assert forall|k: int| 0 <= k < promoted.len() implies 0 <= #[trigger] promoted[k] < statuses.len() && statuses[promoted[k]] == "promoted"@ by {
        assert(promoted.contains(promoted[k]));
        idx.lemma_filter_contains_rev(pred, promoted[k]);
        idx.lemma_filter_pred(pred, k);
    }
    if exists|i: int| 0 <= i < statuses.len() && statuses[i] == "promoted"@ {
        let w = choose|i: int| 0 <= i < statuses.len() && statuses[i] == "promoted"@;
        assert(idx[w] == w);
        idx.lemma_filter_contains(pred, w);
        assert(promoted.contains(w));
    }
}

/// The character a release name keeps in its file name: ASCII letters and
/// digits, `-` and `.` stay, anything else becomes `_`.
pub open spec fn safe_char(c: char) -> char {
    if is_alnum(c) || c == '-' || c == '.' {
        c
    } else {
        '_'
    }
}

/// A release name made safe for a file name.
pub open spec fn safe_name_spec(name: Seq<char>) -> Seq<char> {
    name.map_values(|c: char| safe_char(c))
}

/// A release name made safe for a file name, character by character.
pub fn safe_release_name(name: &str) -> (r: String)
    ensures
        r@ == safe_name_spec(name@),
{
    let v = chars_of(name);
    let mut out: Vec<char> = Vec::new();
    let mut i: usize = 0;
    while i < v.len()
        invariant
            i <= v@.len(),
            v@ == name@,
            out@ == v@.take(i as int).map_values(|c: char| safe_char(c)),
        decreases v@.len() - i,
    {
        let c = v[i];
        let k = if (('a' <= c && c <= 'z') || ('A' <= c && c <= 'Z') || ('0' <= c && c <= '9')) || c == '-'
            || c == '.' {
            c
        } else {
            '_'
        };
        out.push(k);
        assert(v@.take(i + 1).map_values(|c: char| safe_char(c)) =~= v@.take(i as int).map_values(
            |c: char| safe_char(c),
        ).push(safe_char(c)));
        i += 1;
    }
    assert(v@.take(v@.len() as int) =~= v@);
    string_of(&out)
}

/// The file a stored manifest is exported to: `<kind>-<safe name>.json`.
pub open spec fn export_file_spec(kind: Seq<char>, name: Seq<char>) -> Seq<char> {
    kind + "-"@ + safe_name_spec(name) + ".json"@
}

/// The file name a stored manifest of the given kind and name is exported to.
pub fn export_file_name(kind: &str, name: &str) -> (r: String)
    ensures
        r@ == export_file_spec(kind@, name@),
{
    let mut out = chars_of(kind);
    extend_str(&mut out, "-");
    let safe = safe_release_name(name);
    extend_chars(&mut out, &chars_of(safe.as_str()));
    extend_str(&mut out, ".json");
    assert(out@ =~= export_file_spec(kind@, name@));
    string_of(&out)
}

/// An exported file name uses only ASCII letters and digits, `-`, `.` and
/// `_` for the release name, one character for each of the name's.
pub proof fn law_safe_name_is_file_safe(name: Seq<char>)
    ensures
        safe_name_spec(name).len() == name.len(),
        forall|i: int| 0 <= i < name.len() ==> {
            let c = #[trigger] safe_name_spec(name)[i];
            is_alnum(c) || c == '-' || c == '.' || c == '_'
        },
        forall|i: int| 0 <= i < name.len() && (is_alnum(name[i]) || name[i] == '-' || name[i] == '.')
            ==> #[trigger] safe_name_spec(name)[i] == name[i],
{
}

} // verus!
