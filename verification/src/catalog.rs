//! The model catalogue's query building and its audit: the picker's filter
//! becomes one SQL statement (text values quoted as SQL string literals), and
//! the audit sorts manifest rows into files that went missing and files on
//! disk that nothing references.
use vstd::prelude::*;
use crate::text::{chars_of, extend_str, push_decimal, decimal_digits, string_of, str_eq, trim_seq, lower_seq, eq_ignore_case};
use crate::paths::opt_chars;
use crate::ui::non_empty;
use crate::version::{parse_i64, parse_i64_spec};

verus! {

// ---------------------------------------------------------------------------
// SQL string literals
// ---------------------------------------------------------------------------

/// How one character is written inside a `'…'` SQL literal: a quote is doubled.
pub open spec fn quote_piece(c: char) -> Seq<char> {
    if c == '\'' {
        seq!['\'', '\'']
    } else {
        seq![c]
    }
}

/// `s` written as the body of a `'…'` SQL literal (every `'` doubled).
pub open spec fn sql_escape_spec(s: Seq<char>) -> Seq<char>
    decreases s.len(),
{
    if s.len() == 0 {
        seq![]
    } else {
        sql_escape_spec(s.drop_last()) + quote_piece(s.last())
    }
}

/// What SQL reads from the body `t` of a `'…'` literal: `''` stands for one
/// quote, and a lone quote would end the literal early (`None`).
pub open spec fn sql_literal_text(t: Seq<char>) -> Option<Seq<char>>
    decreases t.len(),
{
    if t.len() == 0 {
        Some(seq![])
    } else if t[0] == '\'' {
        if t.len() >= 2 && t[1] == '\'' {
            match sql_literal_text(t.skip(2)) {
                Some(r) => Some(seq!['\''] + r),
                None => None,
            }
        } else {
            None
        }
    } else {
        match sql_literal_text(t.skip(1)) {
            Some(r) => Some(seq![t[0]] + r),
            None => None,
        }
    }
}

/// Escaping, read from the front: the first character's piece, then the rest.
proof fn lemma_escape_front(s: Seq<char>)
    requires
        s.len() > 0,
    ensures
        sql_escape_spec(s) == quote_piece(s[0]) + sql_escape_spec(s.skip(1)),
    decreases s.len(),
{
    if s.len() == 1 {
        assert(s.drop_last() =~= Seq::<char>::empty());
        assert(s.skip(1) =~= Seq::<char>::empty());
        assert(sql_escape_spec(s.drop_last()) =~= Seq::<char>::empty());
        assert(s.last() == s[0]);
        assert(sql_escape_spec(s) =~= quote_piece(s[0]));
    } else {
        let d = s.drop_last();
        lemma_escape_front(d);
        assert(d.skip(1) =~= s.skip(1).drop_last());
        assert(s.skip(1).last() == s.last());
        assert(sql_escape_spec(s) =~= quote_piece(s[0]) + sql_escape_spec(s.skip(1)));
    }
}

/// A text quoted with [`sql_escape`] reads back, as the body of a SQL string
/// literal, as exactly that text: no value can end the literal early.
pub proof fn law_escaped_literal_reads_back(s: Seq<char>)
    ensures
        sql_literal_text(sql_escape_spec(s)) == Some(s),
    decreases s.len(),
{
    if s.len() > 0 {
        lemma_escape_front(s);
        let rest = s.skip(1);
        law_escaped_literal_reads_back(rest);
        let t = sql_escape_spec(s);
        if s[0] == '\'' {
            assert(t.skip(2) =~= sql_escape_spec(rest));
            assert(seq!['\''] + rest =~= s);
        } else {
            assert(t.skip(1) =~= sql_escape_spec(rest));
            assert(seq![s[0]] + rest =~= s);
        }
    } else {
        assert(sql_escape_spec(s) =~= Seq::<char>::empty());
    }
}

/// Appends `s` with every `'` doubled.
pub fn push_escaped(out: &mut Vec<char>, s: &str)
    ensures
        final(out)@ == old(out)@ + sql_escape_spec(s@),
{
    let v = chars_of(s);
    let mut i: usize = 0;
    while i < v.len()
        invariant
            i <= v@.len(),
            v@ == s@,
            out@ == old(out)@ + sql_escape_spec(v@.take(i as int)),
        decreases v@.len() - i,
    {
        let c = v[i];
        proof {
            assert(v@.take(i + 1).drop_last() =~= v@.take(i as int));
            assert(v@.take(i + 1).last() == c);
        }
        if c == '\'' {
            out.push('\'');
            out.push('\'');
        } else {
            out.push(c);
        }
        assert(out@ =~= old(out)@ + sql_escape_spec(v@.take(i + 1)));
        i += 1;
    }
    assert(v@.take(v@.len() as int) =~= v@);
}

/// `s` as the body of a SQL string literal (`'` doubled).
pub fn sql_escape(s: &str) -> (r: String)
    ensures
        r@ == sql_escape_spec(s@),
{
    let mut out: Vec<char> = Vec::new();
    push_escaped(&mut out, s);
    assert(out@ =~= sql_escape_spec(s@));
    string_of(&out)
}

// ---------------------------------------------------------------------------
// The picker's query
// ---------------------------------------------------------------------------

/// Picker filter: which catalogue rows the picker lists.
#[derive(Clone, Default, Debug)]
pub struct PickFilter {
    pub model_type: Option<String>,
    pub base: Option<String>,
    pub search: Option<String>,
    pub status: Option<String>,
    pub min_downloads: i64,
    pub limit: i64,
}

/// The columns and joins every picker query starts with.
pub open spec fn pick_select() -> Seq<char> {
    "SELECT f.file_id, m.model_id, m.name, m.type, v.base_model, m.nsfw,\n                m.downloads, m.rating, f.size_kb, v.trained_words, f.status, f.locked,\n                m.cover_url\n         FROM models m\n         JOIN versions v ON v.model_id=m.model_id AND v.version_idx=0\n         JOIN files f ON f.version_id=v.version_id AND f.is_primary=1\n         WHERE 1=1"@
}

/// `pre`, the escaped value, `post` — or nothing without a value.
pub open spec fn opt_clause(v: Option<Seq<char>>, pre: Seq<char>, post: Seq<char>) -> Seq<char> {
    match v {
        Some(t) => pre + sql_escape_spec(t) + post,
        None => seq![],
    }
}

/// `pre` and the numeral of `n` when `n` is positive, else nothing.
pub open spec fn num_clause(n: i64, pre: Seq<char>) -> Seq<char> {
    if n > 0 {
        pre + decimal_digits(n as nat)
    } else {
        seq![]
    }
}

/// The picker query for a filter: each given text value narrows the rows
/// (type and status exactly, base model and name by substring), a positive
/// download floor and a positive limit apply, most downloaded first.
pub open spec fn pick_query_spec(f: PickFilter) -> Seq<char> {
    pick_select()
        + opt_clause(opt_chars(f.model_type), " AND m.type='"@, "'"@)
        + opt_clause(opt_chars(f.base), " AND v.base_model LIKE '%"@, "%'"@)
        + opt_clause(opt_chars(f.search), " AND m.name LIKE '%"@, "%'"@)
        + opt_clause(opt_chars(f.status), " AND f.status='"@, "'"@)
        + num_clause(f.min_downloads, " AND m.downloads >= "@)
        + " ORDER BY m.downloads DESC"@
        + num_clause(f.limit, " LIMIT "@)
}

fn push_opt_clause(out: &mut Vec<char>, v: &Option<String>, pre: &str, post: &str)
    ensures
        final(out)@ == old(out)@ + opt_clause(opt_chars(*v), pre@, post@),
{
    match v {
        Some(t) => {
            extend_str(out, pre);
            push_escaped(out, t.as_str());
            extend_str(out, post);
            assert(out@ =~= old(out)@ + opt_clause(opt_chars(*v), pre@, post@));
        },
        None => {
            assert(out@ =~= old(out)@ + opt_clause(opt_chars(*v), pre@, post@));
        },
    }
}

fn push_num_clause(out: &mut Vec<char>, n: i64, pre: &str)
    ensures
        final(out)@ == old(out)@ + num_clause(n, pre@),
{
    if n > 0 {
        extend_str(out, pre);
        push_decimal(out, n as u64);
    }
    assert(out@ =~= old(out)@ + num_clause(n, pre@));
}

/// The SQL statement that lists the catalogue rows the filter selects.
pub fn pick_query(f: &PickFilter) -> (r: String)
    ensures
        r@ == pick_query_spec(*f),
{
    let mut out: Vec<char> = Vec::new();
    extend_str(&mut out, "SELECT f.file_id, m.model_id, m.name, m.type, v.base_model, m.nsfw,\n                m.downloads, m.rating, f.size_kb, v.trained_words, f.status, f.locked,\n                m.cover_url\n         FROM models m\n         JOIN versions v ON v.model_id=m.model_id AND v.version_idx=0\n         JOIN files f ON f.version_id=v.version_id AND f.is_primary=1\n         WHERE 1=1");
    push_opt_clause(&mut out, &f.model_type, " AND m.type='", "'");
    push_opt_clause(&mut out, &f.base, " AND v.base_model LIKE '%", "%'");
    push_opt_clause(&mut out, &f.search, " AND m.name LIKE '%", "%'");
    push_opt_clause(&mut out, &f.status, " AND f.status='", "'");
    push_num_clause(&mut out, f.min_downloads, " AND m.downloads >= ");
    extend_str(&mut out, " ORDER BY m.downloads DESC");
    push_num_clause(&mut out, f.limit, " LIMIT ");
    assert(out@ =~= pick_query_spec(*f));
    string_of(&out)
}


/// The picker filter for the picker's inputs: the selected model type (entry
/// 0 is "all", entry `i` the `i`-th configured type), optional base-model
/// and name searches (blank means none), the downloaded-only switch, and the
/// download floor and row limit as typed (0 and 200 when they do not parse
/// as integers).
pub fn pick_filter(
    type_idx: usize,
    types: &Vec<String>,
    base: &str,
    search: &str,
    only_downloaded: bool,
    min_downloads: &str,
    limit: &str,
) -> (f: PickFilter)
    ensures
        type_idx == 0 || type_idx > types@.len() ==> f.model_type is None,
        0 < type_idx <= types@.len() ==> (f.model_type matches Some(t) && t@ == types@[type_idx - 1]@),
        opt_chars(f.base) == (if trim_seq(base@).len() == 0 { None } else { Some(trim_seq(base@)) }),
        opt_chars(f.search) == (if trim_seq(search@).len() == 0 { None } else { Some(trim_seq(search@)) }),
        only_downloaded ==> (f.status matches Some(st) && st@ == "downloaded"@),
        !only_downloaded ==> f.status is None,
        f.min_downloads == (match parse_i64_spec(min_downloads@) { Some(n) => n, None => 0 }),
        f.limit == (match parse_i64_spec(limit@) { Some(n) => n, None => 200 }),
{
    let model_type = if type_idx == 0 || type_idx > types.len() {
        None
    } else {
        Some(types[type_idx - 1].clone())
    };
    PickFilter {
        model_type,
        base: non_empty(base),
        search: non_empty(search),
        status: if only_downloaded { Some("downloaded".to_owned()) } else { None },
        min_downloads: match parse_i64(min_downloads) { Some(n) => n, None => 0 },
        limit: match parse_i64(limit) { Some(n) => n, None => 200 },
    }
}

// ---------------------------------------------------------------------------
// The file life cycle: LISTED -> DOWNLOADED -> ACTIVE (NVMe) -> LOCKED
// ---------------------------------------------------------------------------

/// A download is kept when the catalogue has no hash for the file (none or
/// empty), or when its hash equals the file's SHA-256 hex ignoring ASCII case;
/// otherwise it is discarded.
pub fn download_accepted(expected: Option<&str>, actual_hex: &str) -> (r: bool)
    ensures
        r == (match expected {
            Some(e) => e@.len() == 0 || lower_seq(e@) == lower_seq(actual_hex@),
            None => true,
        }),
{
    match expected {
        Some(e) => {
            let ev = chars_of(e);
            ev.len() == 0 || eq_ignore_case(&ev, &chars_of(actual_hex))
        },
        None => true,
    }
}

/// The registry's record of one model file.
#[derive(Clone, Debug)]
pub struct FileRecord {
    /// indexed | downloaded | promoted
    pub status: String,
    /// the vault (HDD) copy
    pub local_path: Option<String>,
    /// the active replica on NVMe
    pub nvme_path: Option<String>,
    pub locked: bool,
    pub sha256: String,
}

/// What evicting a file's NVMe replica comes to.
#[derive(Clone, Debug)]
pub enum EvictAction {
    /// the replica is locked: nothing changes, and the user is told why
    Refuse(String),
    /// remove the replica file (when one is recorded) and record the file as
    /// downloaded without a replica
    Evict { remove_file: Option<String> },
}

/// What evicting does: a locked replica is never evicted.
pub fn evict_step(locked: bool, nvme_path: &Option<String>) -> (r: EvictAction)
    ensures
        locked <==> r is Refuse,
        r matches EvictAction::Refuse(m) ==> m@ == "replica is locked — unlock before evicting"@,
        r matches EvictAction::Evict { remove_file } ==> opt_chars(remove_file) == opt_chars(*nvme_path),
{
    if locked {
        EvictAction::Refuse("replica is locked — unlock before evicting".to_owned())
    } else {
        EvictAction::Evict { remove_file: nvme_path.clone() }
    }
}

/// A record as plain values: (status, vault copy, replica, locked, hash).
pub open spec fn record_view(f: FileRecord) -> (Seq<char>, Option<Seq<char>>, Option<Seq<char>>, bool, Seq<char>) {
    (f.status@, opt_chars(f.local_path), opt_chars(f.nvme_path), f.locked, f.sha256@)
}

impl FileRecord {
    /// After a download into the vault: `downloaded` with the vault path; the
    /// catalogue hash is kept when it has one, else the download's is taken.
    pub fn downloaded(&self, local_path: &str, sha: &str) -> (r: Self)
        ensures
            record_view(r) == (
                "downloaded"@,
                Some(local_path@),
                opt_chars(self.nvme_path),
                self.locked,
                if self.sha256@.len() > 0 { self.sha256@ } else { sha@ },
            ),
    {
        FileRecord {
            status: "downloaded".to_owned(),
            local_path: Some(local_path.to_owned()),
            nvme_path: self.nvme_path.clone(),
            locked: self.locked,
            sha256: if self.sha256.as_str().is_empty() { sha.to_owned() } else { self.sha256.clone() },
        }
    }

    /// Whether the file can be hotloaded: it needs a vault copy, and that copy
    /// must still be on disk.
    pub fn promote_check(&self, vault_exists: bool) -> (r: Result<(), String>)
        ensures
            self.local_path is None ==> (r matches Err(m) && m@ == "not in vault — download first"@),
            self.local_path is Some && !vault_exists ==> (r matches Err(m) && m@ == "vault file missing — run audit"@),
            self.local_path is Some && vault_exists ==> r is Ok,
    {
        match &self.local_path {
            None => Err("not in vault — download first".to_owned()),
            Some(_) => if vault_exists {
                Ok(())
            } else {
                Err("vault file missing — run audit".to_owned())
            },
        }
    }

    /// After a hotload to NVMe: `promoted` with the replica path.
    pub fn promoted(&self, nvme_path: &str) -> (r: Self)
        ensures
            record_view(r) == ("promoted"@, opt_chars(self.local_path), Some(nvme_path@), self.locked, self.sha256@),
    {
        FileRecord {
            status: "promoted".to_owned(),
            local_path: self.local_path.clone(),
            nvme_path: Some(nvme_path.to_owned()),
            locked: self.locked,
            sha256: self.sha256.clone(),
        }
    }

    /// Evicting the replica: refused while locked, else `downloaded` without
    /// a replica.
    pub fn evicted(&self) -> (r: Result<Self, String>)
        ensures
            self.locked ==> (r matches Err(m) && m@ == "replica is locked — unlock before evicting"@),
            !self.locked ==> (r matches Ok(f) && record_view(f) == (
                "downloaded"@,
                opt_chars(self.local_path),
                None::<Seq<char>>,
                false,
                self.sha256@,
            )),
    {
        if self.locked {
            Err("replica is locked — unlock before evicting".to_owned())
        } else {
            Ok(FileRecord {
                status: "downloaded".to_owned(),
                local_path: self.local_path.clone(),
                nvme_path: None,
                locked: false,
                sha256: self.sha256.clone(),
            })
        }
    }

    /// Locking or unlocking the replica changes nothing else.
    pub fn with_lock(&self, locked: bool) -> (r: Self)
        ensures
            record_view(r) == (self.status@, opt_chars(self.local_path), opt_chars(self.nvme_path), locked, self.sha256@),
    {
        FileRecord {
            status: self.status.clone(),
            local_path: self.local_path.clone(),
            nvme_path: self.nvme_path.clone(),
            locked,
            sha256: self.sha256.clone(),
        }
    }
}

/// Hotloading and then evicting an unlocked downloaded file gives back the
/// downloaded record without a replica; a locked replica is never evicted.
pub proof fn law_evict_undoes_promote(f: FileRecord, g: FileRecord, nvme: Seq<char>)
    requires
        record_view(g) == ("promoted"@, opt_chars(f.local_path), Some(nvme), f.locked, f.sha256@),
        f.status@ == "downloaded"@,
        f.nvme_path is None,
    ensures
        !f.locked ==> record_view(FileRecord { status: f.status, local_path: f.local_path, nvme_path: None, locked: false, sha256: f.sha256 })
            == ("downloaded"@, opt_chars(g.local_path), None::<Seq<char>>, g.locked, g.sha256@),
        g.locked == f.locked,
{
}

/// What healing an audit does: vault copies that vanished reset their rows
/// to `indexed` (so they can be fetched again), replicas that vanished demote
/// theirs to `downloaded`; orphans are reported only, never deleted.
#[derive(Clone, Debug)]
pub struct HealPlan {
    pub reset_to_indexed: Vec<i64>,
    pub demote_to_downloaded: Vec<i64>,
    pub deletes: Vec<String>,
}

/// The heal plan for an audit report; its size is the number of rows healed.
pub fn heal_plan(rep: &AuditReport) -> (r: HealPlan)
    ensures
        r.reset_to_indexed@ == rep.missing_vault@.map_values(|p: (i64, String)| p.0),
        r.demote_to_downloaded@ == rep.missing_nvme@.map_values(|p: (i64, String)| p.0),
        r.deletes@.len() == 0,
{
    let mut a: Vec<i64> = Vec::new();
    let mut i: usize = 0;
    while i < rep.missing_vault.len()
        invariant
            i <= rep.missing_vault@.len(),
            a@ == rep.missing_vault@.take(i as int).map_values(|p: (i64, String)| p.0),
        decreases rep.missing_vault@.len() - i,
    {
        a.push(rep.missing_vault[i].0);
        assert(rep.missing_vault@.take(i + 1).map_values(|p: (i64, String)| p.0) =~= rep.missing_vault@.take(i as int).map_values(|p: (i64, String)| p.0).push(rep.missing_vault@[i as int].0));
        i += 1;
    }
    assert(rep.missing_vault@.take(rep.missing_vault@.len() as int) =~= rep.missing_vault@);
    let mut b: Vec<i64> = Vec::new();
    let mut j: usize = 0;
    while j < rep.missing_nvme.len()
        invariant
            j <= rep.missing_nvme@.len(),
            b@ == rep.missing_nvme@.take(j as int).map_values(|p: (i64, String)| p.0),
        decreases rep.missing_nvme@.len() - j,
    {
        b.push(rep.missing_nvme[j].0);
        assert(rep.missing_nvme@.take(j + 1).map_values(|p: (i64, String)| p.0) =~= rep.missing_nvme@.take(j as int).map_values(|p: (i64, String)| p.0).push(rep.missing_nvme@[j as int].0));
        j += 1;
    }
    assert(rep.missing_nvme@.take(rep.missing_nvme@.len() as int) =~= rep.missing_nvme@);
    HealPlan { reset_to_indexed: a, demote_to_downloaded: b, deletes: Vec::new() }
}

// ---------------------------------------------------------------------------
// Audit
// ---------------------------------------------------------------------------

/// One manifest row as the audit sees it, with what the filesystem said
/// about its two copies.
#[derive(Clone, Debug)]
pub struct AuditRow {
    pub file_id: i64,
    pub status: String,
    /// the vault copy, if the row has one
    pub local_path: Option<String>,
    /// the vault copy exists on disk
    pub local_exists: bool,
    /// the NVMe replica, if the row has one
    pub nvme_path: Option<String>,
    /// the NVMe replica exists on disk
    pub nvme_exists: bool,
}

/// What an audit found.
#[derive(Clone, Default, Debug)]
pub struct AuditReport {
    pub checked: usize,
    /// status=downloaded but file gone
    pub missing_vault: Vec<(i64, String)>,
    /// status=promoted but nvme replica gone
    pub missing_nvme: Vec<(i64, String)>,
    /// files on disk under vault, not in manifest
    pub orphans: Vec<String>,
}

/// The rows whose vault copy is recorded but gone, as (file id, path).
pub open spec fn vault_missing(rows: Seq<AuditRow>) -> Seq<(i64, Seq<char>)>
    decreases rows.len(),
{
    if rows.len() == 0 {
        seq![]
    } else {
        let r = rows.last();
        let rest = vault_missing(rows.drop_last());
        match r.local_path {
            Some(lp) => if !r.local_exists {
                rest.push((r.file_id, lp@))
            } else {
                rest
            },
            None => rest,
        }
    }
}

/// The promoted rows whose NVMe replica is not on disk, as (file id, replica
/// path, empty when none is recorded).
pub open spec fn nvme_missing(rows: Seq<AuditRow>) -> Seq<(i64, Seq<char>)>
    decreases rows.len(),
{
    if rows.len() == 0 {
        seq![]
    } else {
        let r = rows.last();
        let rest = nvme_missing(rows.drop_last());
        if r.status@ == "promoted"@ {
            match r.nvme_path {
                Some(np) => if r.nvme_exists {
                    rest
                } else {
                    rest.push((r.file_id, np@))
                },
                None => rest.push((r.file_id, seq![])),
            }
        } else {
            rest
        }
    }
}

/// A list of (id, path) pairs as plain values.
pub open spec fn pairs_view(v: Seq<(i64, String)>) -> Seq<(i64, Seq<char>)> {
    v.map_values(|p: (i64, String)| (p.0, p.1@))
}

/// Checks every manifest row: a vault copy that is recorded but gone, and a
/// promoted row whose NVMe replica is gone (or was never recorded), are
/// reported. Orphans are looked for separately ([`collect_orphans`]).
pub fn audit_rows(rows: &Vec<AuditRow>) -> (rep: AuditReport)
    ensures
        rep.checked == rows@.len(),
        pairs_view(rep.missing_vault@) == vault_missing(rows@),
        pairs_view(rep.missing_nvme@) == nvme_missing(rows@),
        rep.orphans@.len() == 0,
{
    let mut rep = AuditReport { checked: 0, missing_vault: Vec::new(), missing_nvme: Vec::new(), orphans: Vec::new() };
    let mut i: usize = 0;
    while i < rows.len()
        invariant
            i <= rows@.len(),
            rep.checked == i,
            pairs_view(rep.missing_vault@) == vault_missing(rows@.take(i as int)),
            pairs_view(rep.missing_nvme@) == nvme_missing(rows@.take(i as int)),
            rep.orphans@.len() == 0,
        decreases rows@.len() - i,
    {
        let r = &rows[i];
        proof {
            assert(rows@.take(i + 1).drop_last() =~= rows@.take(i as int));
            assert(rows@.take(i + 1).last() == *r);
            reveal_strlit("promoted");
        }
        rep.checked = rep.checked + 1;
        let ghost mv = rep.missing_vault@;
        let ghost mn = rep.missing_nvme@;
        match &r.local_path {
            Some(lp) => {
                if !r.local_exists {
                    rep.missing_vault.push((r.file_id, lp.clone()));
                    assert(pairs_view(rep.missing_vault@) =~= pairs_view(mv).push((r.file_id, lp@)));
                }
            },
            None => {},
        }
        if str_eq(r.status.as_str(), "promoted") {
            match &r.nvme_path {
                Some(np) => {
                    if !r.nvme_exists {
                        rep.missing_nvme.push((r.file_id, np.clone()));
                        assert(pairs_view(rep.missing_nvme@) =~= pairs_view(mn).push((r.file_id, np@)));
                    }
                },
                None => {
                    rep.missing_nvme.push((r.file_id, String::new()));
                    assert(pairs_view(rep.missing_nvme@) =~= pairs_view(mn).push((r.file_id, Seq::<char>::empty())));
                },
            }
        }
        i += 1;
    }
    assert(rows@.take(rows@.len() as int) =~= rows@);
    rep
}

/// `Path::new(a) == Path::new(b)`: compares the paths' components, so what
/// counts as a separator depends on the platform. Equal texts always name
/// the same path; two paths whose last components are the plain names after
/// their last `/` (see `names_file`) are different paths when those names
/// differ, on every platform. Nothing more is stated of the result.
#[verifier::external_body]
fn path_eq(a: &str, b: &str) -> (r: bool)
    ensures
        a@ == b@ ==> r,
        crate::paths::names_file(a@) && crate::paths::names_file(b@)
            && crate::paths::path_tail(a@) != crate::paths::path_tail(b@) ==> !r,
{
    std::path::Path::new(a) == std::path::Path::new(b)
}

/// The file extensions of model files the audit looks for.
pub open spec fn model_file_ext(e: Seq<char>) -> bool {
    e == "safetensors"@ || e == "ckpt"@ || e == "pt"@ || e == "bin"@ || e == "pth"@
}

/// `ext` is a model-file extension.
pub fn is_model_file_ext(ext: &str) -> (r: bool)
    ensures
        r == model_file_ext(ext@),
{
    str_eq(ext, "safetensors") || str_eq(ext, "ckpt") || str_eq(ext, "pt") || str_eq(ext, "bin")
        || str_eq(ext, "pth")
}

/// Some manifest row records exactly the text `path` as its vault copy.
pub open spec fn recorded_text(rows: Seq<AuditRow>, path: Seq<char>) -> bool {
    exists|j: int| 0 <= j < rows.len() && opt_chars((#[trigger] rows[j]).local_path) == Some(path)
}

/// The orphans among `files`, the model-folder files found on disk as (path,
/// extension, whether a manifest row records it as its vault copy): the model
/// files (by extension) that no row records, in the order found.
pub open spec fn orphans_spec(files: Seq<(String, String, bool)>) -> Seq<Seq<char>>
    decreases files.len(),
{
    if files.len() == 0 {
        seq![]
    } else {
        let f = files.last();
        let rest = orphans_spec(files.drop_last());
        if model_file_ext(f.1@) && !f.2 {
            rest.push(f.0@)
        } else {
            rest
        }
    }
}

/// The orphans among the model-folder files found on disk, each given with
/// whether the manifest records it (see [`orphans_spec`]).
pub fn orphans_among(files: &Vec<(String, String, bool)>) -> (r: Vec<String>)
    ensures
        r@.map_values(|s: String| s@) == orphans_spec(files@),
{
    let mut r: Vec<String> = Vec::new();
    let mut i: usize = 0;
    while i < files.len()
        invariant
            i <= files@.len(),
            r@.map_values(|s: String| s@) == orphans_spec(files@.take(i as int)),
        decreases files@.len() - i,
    {
        let f = &files[i];
        proof {
            assert(files@.take(i + 1).drop_last() =~= files@.take(i as int));
            assert(files@.take(i + 1).last() == *f);
        }
        let ghost before = r@;
        if is_model_file_ext(f.1.as_str()) && !f.2 {
            r.push(f.0.clone());
            assert(r@.map_values(|s: String| s@) =~= before.map_values(|s: String| s@).push(f.0@));
        }
        i += 1;
    }
    assert(files@.take(files@.len() as int) =~= files@);
    r
}

/// The final names of two paths tell them apart on every platform.
pub open spec fn names_differ(l: Seq<char>, p: Seq<char>) -> bool {
    crate::paths::names_file(l) && crate::paths::names_file(p) && crate::paths::path_tail(l)
        != crate::paths::path_tail(p)
}

/// A recorded vault path `lp` may be the same path as `p` under `Path`'s
/// comparison: it is one, and its final name does not tell it apart from
/// `p`'s (otherwise the platform decides).
pub open spec fn may_match(lp: Option<Seq<char>>, p: Seq<char>) -> bool {
    match lp {
        Some(l) => !names_differ(l, p),
        None => false,
    }
}

/// Some row's recorded vault path may be the same path as `p`.
pub open spec fn possibly_recorded(rows: Seq<AuditRow>, p: Seq<char>) -> bool {
    exists|j: int| 0 <= j < rows.len() && may_match(opt_chars((#[trigger] rows[j]).local_path), p)
}

/// Whether some row records `path` as its vault copy, comparing paths as
/// `Path` does: a row whose recorded text is `path` itself always counts,
/// and the answer is `true` only when some row's recorded path may be the
/// same path (in particular never when no row records a vault copy).
fn recorded(rows: &Vec<AuditRow>, path: &str) -> (r: bool)
    ensures
        recorded_text(rows@, path@) ==> r,
        r ==> possibly_recorded(rows@, path@),
{
    let mut j: usize = 0;
    while j < rows.len()
        invariant
            j <= rows@.len(),
            forall|k: int| 0 <= k < j ==> opt_chars((#[trigger] rows@[k]).local_path) != Some(path@),
        decreases rows@.len() - j,
    {
        match &rows[j].local_path {
            Some(lp) => {
                if path_eq(lp.as_str(), path) {
                    assert(may_match(opt_chars(rows@[j as int].local_path), path@));
                    return true;
                }
            },
            None => {},
        }
        j += 1;
    }
    false
}

/// `p` is a file of `files` with a model-file extension whose path text no
/// row records.
pub open spec fn reportable(rows: Seq<AuditRow>, files: Seq<(String, String)>, p: Seq<char>) -> bool {
    exists|i: int| 0 <= i < files.len() && (#[trigger] files[i]).0@ == p && model_file_ext(files[i].1@)
        && !recorded_text(rows, files[i].0@)
}

/// `m` marks each of `files` with whether a row records it, as `Path`'s
/// comparison may decide: a file whose path text a row records is marked,
/// and a file is marked only when some row's recorded path may be it.
pub open spec fn marking_of(rows: Seq<AuditRow>, files: Seq<(String, String)>, m: Seq<(String, String, bool)>) -> bool {
    &&& m.len() == files.len()
    &&& forall|i: int| 0 <= i < files.len() ==> (#[trigger] m[i]).0@ == files[i].0@ && m[i].1@ == files[i].1@
        && (recorded_text(rows, files[i].0@) ==> m[i].2) && (m[i].2 ==> possibly_recorded(rows, files[i].0@))
}

/// The orphans among the model-folder files found on disk as (path,
/// extension): model files that no manifest row records as its vault copy,
/// paths compared as `Path` compares them, in the order found. The result
/// is [`orphans_spec`] of the files marked as `Path`'s comparison decides
/// (see [`marking_of`]): so every reported file is one of `files` with a
/// model-file extension, a file whose path text a row records is never
/// reported, and a model file that no recorded path may be (in particular
/// one whose final name differs from every recorded path's) is always
/// reported.
pub fn collect_orphans(rows: &Vec<AuditRow>, files: &Vec<(String, String)>) -> (r: Vec<String>)
    ensures
        exists|m: Seq<(String, String, bool)>| #[trigger] marking_of(rows@, files@, m)
            && r@.map_values(|s: String| s@) == orphans_spec(m),
        forall|k: int| 0 <= k < r@.len() ==> reportable(rows@, files@, (#[trigger] r@[k])@),
        forall|i: int| 0 <= i < files@.len() && model_file_ext(files@[i].1@)
            && !possibly_recorded(rows@, (#[trigger] files@[i]).0@)
            ==> exists|k: int| 0 <= k < r@.len() && (#[trigger] r@[k])@ == files@[i].0@,
{
    let mut marked: Vec<(String, String, bool)> = Vec::new();
    let mut i: usize = 0;
    while i < files.len()
        invariant
            i <= files@.len(),
            marked@.len() == i,
            forall|k: int| 0 <= k < i ==> (#[trigger] marked@[k]).0@ == files@[k].0@ && marked@[k].1@ == files@[k].1@
                && (recorded_text(rows@, files@[k].0@) ==> marked@[k].2)
                && (marked@[k].2 ==> possibly_recorded(rows@, files@[k].0@)),
        decreases files@.len() - i,
    {
        let f = &files[i];
        let known = recorded(rows, f.0.as_str());
        marked.push((f.0.clone(), f.1.clone(), known));
        i += 1;
    }
    let r = orphans_among(&marked);
    proof {
        assert(marking_of(rows@, files@, marked@));
        lemma_orphans_from(marked@);
        assert forall|i: int| 0 <= i < files@.len() && model_file_ext(files@[i].1@)
            && !possibly_recorded(rows@, (#[trigger] files@[i]).0@)
            implies exists|k: int| 0 <= k < r@.len() && (#[trigger] r@[k])@ == files@[i].0@ by {
            lemma_orphans_has(marked@, i);
            let k = choose|k: int| 0 <= k < orphans_spec(marked@).len() && orphans_spec(marked@)[k] == marked@[i].0@;
            assert(r@.map_values(|s: String| s@)[k] == r@[k]@);
        }
        assert forall|k: int| 0 <= k < r@.len() implies reportable(rows@, files@, (#[trigger] r@[k])@) by {
            assert(r@.map_values(|s: String| s@)[k] == r@[k]@);
            let i = choose|i: int| 0 <= i < marked@.len() && marked@[i].0@ == r@[k]@ && model_file_ext(marked@[i].1@) && !marked@[i].2;
            assert(files@[i].0@ == r@[k]@);
        }
    }
    r
}

proof fn lemma_orphans_has(files: Seq<(String, String, bool)>, i: int)
    requires
        0 <= i < files.len(),
        model_file_ext(files[i].1@),
        !files[i].2,
    ensures
        exists|k: int| 0 <= k < orphans_spec(files).len() && orphans_spec(files)[k] == files[i].0@,
    decreases files.len(),
{
    let d = files.drop_last();
    if i < files.len() - 1 {
        assert(d[i] == files[i]);
        lemma_orphans_has(d, i);
        let k = choose|k: int| 0 <= k < orphans_spec(d).len() && orphans_spec(d)[k] == d[i].0@;
        assert(orphans_spec(files)[k] == orphans_spec(d)[k]);
    } else {
        assert(files.last() == files[i]);
        assert(orphans_spec(files) == orphans_spec(d).push(files[i].0@));
        assert(orphans_spec(files)[orphans_spec(d).len() as int] == files[i].0@);
    }
}

proof fn lemma_orphans_from(files: Seq<(String, String, bool)>)
    ensures
        forall|k: int| 0 <= k < orphans_spec(files).len() ==> exists|i: int| 0 <= i < files.len() && files[i].0@ == #[trigger] orphans_spec(files)[k] && model_file_ext(files[i].1@) && !files[i].2,
    decreases files.len(),
{
    if files.len() > 0 {
        let d = files.drop_last();
        lemma_orphans_from(d);
        assert forall|k: int| 0 <= k < orphans_spec(files).len() implies exists|i: int| 0 <= i < files.len() && files[i].0@ == #[trigger] orphans_spec(files)[k] && model_file_ext(files[i].1@) && !files[i].2 by {
            if k < orphans_spec(d).len() {
                let i = choose|i: int| 0 <= i < d.len() && d[i].0@ == orphans_spec(d)[k] && model_file_ext(d[i].1@) && !d[i].2;
                assert(files[i] == d[i]);
            } else {
                assert(files[files.len() - 1] == files.last());
            }
        }
    }
}

} // verus!
