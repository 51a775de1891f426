//! Backups: the names of backup archives and of the copies kept when a backup
//! is restored, which of those copies are cleaned up, the names of archive
//! entries, the schema check of an archive's manifest, and the order of the
//! backup listing.
use vstd::prelude::*;
use crate::calendar::{digits, push_digits};
use crate::error::AppError;
use crate::graph::view_of;
use crate::service::text_starts_with;
use crate::service::starts_with_text;
use crate::sort::{desc_key, order_rows, push_desc_key, sorted_rows};
use crate::text::{chars_of, string_from_chars};

verus! {

/// The newest schema of the store; backups of a newer one are refused.
pub const CURRENT_SCHEMA_VERSION: u32 = 4;

/// How many copies of replaced data a restore keeps.
pub const KEPT_RESTORE_COPIES: usize = 5;

/// Why a backup's manifest is refused: it was made by a newer schema.
pub open spec fn manifest_refusal(schema_version: u32) -> Option<Seq<char>> {
    if schema_version > CURRENT_SCHEMA_VERSION {
        Some("备份 schema 版本 "@ + digits(schema_version as nat) + " 高于当前支持 4"@)
    } else {
        None
    }
}

/// Checks the schema version of a backup's manifest (see `manifest_refusal`).
pub fn check_manifest_version(schema_version: u32) -> (r: Result<(), AppError>)
    ensures
        match manifest_refusal(schema_version) {
            Some(m) => r matches Err(AppError::InvalidInput(x)) && x@ == m,
            None => r is Ok,
        },
{
    if schema_version > CURRENT_SCHEMA_VERSION {
        let mut v = chars_of("备份 schema 版本 ");
        push_digits(&mut v, schema_version as u64);
        let mut tail = chars_of(" 高于当前支持 4");
        v.append(&mut tail);
        return Err(AppError::InvalidInput(string_from_chars(&v)));
    }
    Ok(())
}

/// The name of a backup archive made at the time `stamp`.
pub fn backup_file_name(stamp: &str) -> (r: String)
    ensures
        r@ == "clantrail-backup-"@ + stamp@ + ".zip"@,
{
    let mut v = chars_of("clantrail-backup-");
    let mut a = chars_of(stamp);
    v.append(&mut a);
    let mut b = chars_of(".zip");
    v.append(&mut b);
    string_from_chars(&v)
}

/// What the names of the copies a restore keeps begin with.
pub open spec fn restore_copy_prefix() -> Seq<char> {
    ".clantrail-backup-"@
}

/// The name of the directory where a restore made at the time `stamp` keeps
/// the data it replaces.
pub fn restore_copy_name(stamp: &str) -> (r: String)
    ensures
        r@ == restore_copy_prefix() + stamp@,
{
    let mut v = chars_of(".clantrail-backup-");
    let mut a = chars_of(stamp);
    v.append(&mut a);
    string_from_chars(&v)
}

/// The copies to remove so that the newest `keep` remain: the directory
/// names that begin with the prefix, newest (greatest name) first, after the
/// first `keep`.
pub open spec fn copies_to_remove(sorted: Seq<Seq<char>>, keep: nat) -> Seq<Seq<char>> {
    if keep < sorted.len() { sorted.subrange(keep as int, sorted.len() as int) } else { Seq::empty() }
}

pub open spec fn is_restore_copy(name: String) -> bool {
    text_starts_with(name@, restore_copy_prefix())
}

/// Chooses, among the names of the directories beside the store, the copies
/// kept by restores that are to be removed so that only the newest `keep`
/// remain.
pub fn restore_copies_to_remove(dir_names: Vec<String>, keep: usize) -> (r: Vec<String>)
    ensures
        exists|sorted: Seq<String>| sorted_rows(dir_names@.filter(|n: String| is_restore_copy(n)),
            |n: String| desc_key(n@), sorted)
            && view_of(r@) == #[trigger] copies_to_remove(view_of(sorted), keep as nat),
{
    let ghost names = dir_names@;
    let mut copies: Vec<String> = Vec::new();
    let mut i: usize = 0;
    let mut src = dir_names;
    while i < src.len()
        invariant
            i <= src@.len(),
            src@ == names,
            copies@ == names.take(i as int).filter(|n: String| is_restore_copy(n)),
        decreases src.len() - i,
    {
        proof {
            reveal(Seq::filter);
            assert(names.take(i as int + 1).drop_last() =~= names.take(i as int));
            assert(names.take(i as int + 1).last() == names[i as int]);
        }
        if starts_with_text(src[i].as_str(), ".clantrail-backup-") {
            copies.push(src[i].clone());
        }
        i = i + 1;
    }
    assert(names.take(names.len() as int) =~= names);
    let sorted = order_rows(copies, |n: &String| -> (k: Vec<u64>) ensures k@ == desc_key(n@) { desc_key_of(n) },
        Ghost(|n: String| desc_key(n@)));
    let ghost sv = sorted@;
    let mut out: Vec<String> = Vec::new();
    let mut j: usize = keep;
    while j < sorted.len()
        invariant
            keep <= j <= sorted@.len() || (j == keep && keep >= sorted@.len()),
            sorted@ == sv,
            keep < sv.len() ==> out@.map_values(|n: String| n@) == sv.subrange(keep as int, j as int).map_values(|n: String| n@),
            keep >= sv.len() ==> out@.len() == 0,
        decreases sorted.len() - j,
    {
        out.push(sorted[j].clone());
        assert(sv.subrange(keep as int, j + 1).map_values(|n: String| n@)
            =~= sv.subrange(keep as int, j as int).map_values(|n: String| n@).push(sv[j as int]@));
        assert(out@.map_values(|n: String| n@) =~= sv.subrange(keep as int, j as int).map_values(|n: String| n@).push(sv[j as int]@));
        j = j + 1;
    }
    proof {
        if keep < sv.len() {
            assert(sv.subrange(keep as int, sv.len() as int).map_values(|n: String| n@)
                =~= copies_to_remove(view_of(sv), keep as nat));
        } else {
            assert(view_of(out@) =~= copies_to_remove(view_of(sv), keep as nat));
        }
        assert(view_of(out@) == out@.map_values(|n: String| n@));
    }
    out
}

fn desc_key_of(s: &String) -> (k: Vec<u64>)
    ensures
        k@ == desc_key(s@),
{
    let mut k: Vec<u64> = Vec::new();
    push_desc_key(&mut k, s.as_str());
    assert(k@ =~= desc_key(s@));
    k
}

/// A text with its trailing `/` characters removed.
pub open spec fn trim_trailing_slashes(s: Seq<char>) -> Seq<char>
    decreases s.len(),
{
    if s.len() > 0 && s.last() == '/' { trim_trailing_slashes(s.drop_last()) } else { s }
}

/// A path with its `\` separators written as `/`.
pub open spec fn forward_slashes(s: Seq<char>) -> Seq<char> {
    s.map_values(|c: char| if c == '\\' { '/' } else { c })
}

/// The name of the archive entry of the file at `rel` under the directory
/// archived as `prefix`.
pub fn zip_entry_name(prefix: &str, rel: &str) -> (r: String)
    ensures
        r@ == trim_trailing_slashes(prefix@) + seq!['/'] + forward_slashes(rel@),
{
    let mut p = chars_of(prefix);
    while p.len() > 0 && p[p.len() - 1] == '/'
        invariant
            trim_trailing_slashes(p@) == trim_trailing_slashes(prefix@),
        decreases p.len(),
    {
        p.pop();
    }
    assert(trim_trailing_slashes(p@) == p@);
    p.push('/');
    let r = chars_of(rel);
    let mut i: usize = 0;
    let ghost start = p@;
    while i < r.len()
        invariant
            i <= r@.len(),
            r@ == rel@,
            p@ == start + forward_slashes(r@.take(i as int)),
        decreases r.len() - i,
    {
        let c = r[i];
        p.push(if c == '\\' { '/' } else { c });
        assert(forward_slashes(r@.take(i + 1)) =~= forward_slashes(r@.take(i as int)).push(if c == '\\' { '/' } else { c }));
        i = i + 1;
    }
    assert(r@.take(r.len() as int) =~= r@);
    string_from_chars(&p)
}

/// A backup archive as the listing shows it.
#[derive(Debug)]
pub struct BackupEntry {
    pub filename: String,
    pub size_bytes: u64,
    /// When it was last written (RFC 3339, local time).
    pub modified_at: String,
}

/// Orders the backup listing newest first, by modification time; entries of
/// the same time keep their order.
pub fn newest_backups_first(entries: Vec<BackupEntry>) -> (r: Vec<BackupEntry>)
    ensures
        sorted_rows(entries@, |e: BackupEntry| desc_key(e.modified_at@), r@),
{
    order_rows(entries, |e: &BackupEntry| -> (k: Vec<u64>) ensures k@ == desc_key(e.modified_at@) { desc_key_of(&e.modified_at) },
        Ghost(|e: BackupEntry| desc_key(e.modified_at@)))
}

} // verus!
