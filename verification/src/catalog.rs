//! The backup-file catalog: which URLs look like backup artifacts, and which
//! Content-Type headers are plausible for a given artifact extension.
use vstd::prelude::*;
use crate::text::{
    chars_of, contains_ci, contains_exact, contains_seq, ends_with, ends_with_ci, ends_with_exec,
    lower,
};

verus! {

/// A URL names a likely backup artifact: it ends, case-insensitively, with an
/// archive, database-dump, generic-backup or temp-file suffix, or touches a
/// sensitive path.
pub open spec fn matches_backup_catalog(s: Seq<char>) -> bool {
    let l = lower(s);
    ||| ends_with(l, ".zip"@)
    ||| ends_with(l, ".rar"@)
    ||| ends_with(l, ".tar"@)
    ||| ends_with(l, ".tar.gz"@)
    ||| ends_with(l, ".7z"@)
    ||| ends_with(l, ".sql"@)
    ||| ends_with(l, ".sql.gz"@)
    ||| ends_with(l, ".sql.bz2"@)
    ||| ends_with(l, ".sqlite"@)
    ||| ends_with(l, ".sqlite3"@)
    ||| ends_with(l, ".db"@)
    ||| ends_with(l, ".mdb"@)
    ||| ends_with(l, ".dump"@)
    ||| ends_with(l, ".bak"@)
    ||| ends_with(l, ".old"@)
    ||| ends_with(l, ".backup"@)
    ||| ends_with(l, ".back"@)
    ||| ends_with(l, "_backup"@)
    ||| ends_with(l, "-backup"@)
    ||| ends_with(l, ".copy"@)
    ||| ends_with(l, ".orig"@)
    ||| ends_with(l, ".original"@)
    ||| ends_with(l, ".txt"@)
    ||| ends_with(l, "/.git/config"@)
    ||| ends_with(l, "/.git/head"@)
    ||| ends_with(l, "/.svn/entries"@)
    ||| ends_with(l, "/.env"@)
    ||| ends_with(l, "/.htpasswd"@)
    ||| ends_with(l, "/wp-config.php.bak"@)
    ||| ends_with(l, "/config.php.bak"@)
    ||| contains_seq(l, ".config."@)
    ||| contains_seq(l, "/.git/"@)
    ||| contains_seq(l, "/.svn/"@)
    ||| ends_with(l, ".tmp"@)
    ||| ends_with(l, ".temp"@)
    ||| ends_with(l, ".swp"@)
    ||| ends_with(l, ".save"@)
    ||| ends_with(l, ".old.php"@)
}

/// Whether `url` names a likely backup artifact (case-insensitive).
pub fn is_backup_file_extension(url: &str) -> (b: bool)
    ensures
        b == matches_backup_catalog(url@),
{
    let v = chars_of(url);
    let b = ends_with_ci(&v, &chars_of(".zip")) || ends_with_ci(&v, &chars_of(".rar"))
        || ends_with_ci(&v, &chars_of(".tar")) || ends_with_ci(&v, &chars_of(".tar.gz"))
        || ends_with_ci(&v, &chars_of(".7z")) || ends_with_ci(&v, &chars_of(".sql"))
        || ends_with_ci(&v, &chars_of(".sql.gz")) || ends_with_ci(&v, &chars_of(".sql.bz2"))
        || ends_with_ci(&v, &chars_of(".sqlite")) || ends_with_ci(&v, &chars_of(".sqlite3"))
        || ends_with_ci(&v, &chars_of(".db")) || ends_with_ci(&v, &chars_of(".mdb"))
        || ends_with_ci(&v, &chars_of(".dump")) || ends_with_ci(&v, &chars_of(".bak"))
        || ends_with_ci(&v, &chars_of(".old")) || ends_with_ci(&v, &chars_of(".backup"))
        || ends_with_ci(&v, &chars_of(".back")) || ends_with_ci(&v, &chars_of("_backup"))
        || ends_with_ci(&v, &chars_of("-backup")) || ends_with_ci(&v, &chars_of(".copy"))
        || ends_with_ci(&v, &chars_of(".orig")) || ends_with_ci(&v, &chars_of(".original"))
        || ends_with_ci(&v, &chars_of(".txt")) || ends_with_ci(&v, &chars_of("/.git/config"))
        || ends_with_ci(&v, &chars_of("/.git/head")) || ends_with_ci(
        &v,
        &chars_of("/.svn/entries"),
    ) || ends_with_ci(&v, &chars_of("/.env")) || ends_with_ci(&v, &chars_of("/.htpasswd"))
        || ends_with_ci(&v, &chars_of("/wp-config.php.bak")) || ends_with_ci(
        &v,
        &chars_of("/config.php.bak"),
    ) || contains_ci(&v, &chars_of(".config.")) || contains_ci(&v, &chars_of("/.git/"))
        || contains_ci(&v, &chars_of("/.svn/")) || ends_with_ci(&v, &chars_of(".tmp"))
        || ends_with_ci(&v, &chars_of(".temp")) || ends_with_ci(&v, &chars_of(".swp"))
        || ends_with_ci(&v, &chars_of(".save")) || ends_with_ci(&v, &chars_of(".old.php"));
    b
}

/// The Content-Type `ct` (compared case-insensitively) is plausible for the
/// artifact that `url` (compared exactly) names.
pub open spec fn content_type_plausible(ct: Seq<char>, url: Seq<char>) -> bool {
    let l = lower(ct);
    if ends_with(url, ".zip"@) || ends_with(url, ".rar"@) || ends_with(url, ".7z"@) {
        contains_seq(l, "application/"@) || contains_seq(l, "application/zip"@) || contains_seq(
            l,
            "application/x-rar"@,
        ) || contains_seq(l, "application/x-7z"@) || contains_seq(l, "application/octet-stream"@)
    } else if ends_with(url, ".gz"@) || ends_with(url, ".tar"@) || ends_with(url, ".tar.gz"@)
        || ends_with(url, ".tgz"@) {
        contains_seq(l, "application/"@) || contains_seq(l, "application/gzip"@) || contains_seq(
            l,
            "application/x-tar"@,
        ) || contains_seq(l, "application/octet-stream"@)
    } else if ends_with(url, ".sql"@) || ends_with(url, ".sql.gz"@) {
        contains_seq(l, "text/"@) || contains_seq(l, "application/sql"@) || contains_seq(
            l,
            "application/octet-stream"@,
        )
    } else if ends_with(url, ".db"@) || ends_with(url, ".sqlite"@) || ends_with(url, ".mdb"@) {
        contains_seq(l, "application/"@) || contains_seq(l, "application/octet-stream"@)
    } else if ends_with(url, ".bak"@) || contains_seq(url, ".backup"@) || ends_with(url, ".old"@) {
        true
    } else {
        ends_with(url, ".tmp"@) || ends_with(url, ".temp"@) || ends_with(url, ".swp"@)
            || ends_with(url, ".save"@) || ends_with(url, ".old.php"@)
    }
}

/// Whether `content_type` is plausible for the artifact `url` names.
/// A mismatch is advisory only: classification never rejects on it.
pub fn is_valid_backup_content_type(content_type: &str, url: &str) -> (b: bool)
    ensures
        b == content_type_plausible(content_type@, url@),
{
    let ct = chars_of(content_type);
    let u = chars_of(url);
    if ends_with_exec(&u, &chars_of(".zip")) || ends_with_exec(&u, &chars_of(".rar"))
        || ends_with_exec(&u, &chars_of(".7z")) {
        contains_ci(&ct, &chars_of("application/")) || contains_ci(&ct, &chars_of("application/zip"))
            || contains_ci(&ct, &chars_of("application/x-rar")) || contains_ci(
            &ct,
            &chars_of("application/x-7z"),
        ) || contains_ci(&ct, &chars_of("application/octet-stream"))
    } else if ends_with_exec(&u, &chars_of(".gz")) || ends_with_exec(&u, &chars_of(".tar"))
        || ends_with_exec(&u, &chars_of(".tar.gz")) || ends_with_exec(&u, &chars_of(".tgz")) {
        contains_ci(&ct, &chars_of("application/")) || contains_ci(
            &ct,
            &chars_of("application/gzip"),
        ) || contains_ci(&ct, &chars_of("application/x-tar")) || contains_ci(
            &ct,
            &chars_of("application/octet-stream"),
        )
    } else if ends_with_exec(&u, &chars_of(".sql")) || ends_with_exec(&u, &chars_of(".sql.gz")) {
        contains_ci(&ct, &chars_of("text/")) || contains_ci(&ct, &chars_of("application/sql"))
            || contains_ci(&ct, &chars_of("application/octet-stream"))
    } else if ends_with_exec(&u, &chars_of(".db")) || ends_with_exec(&u, &chars_of(".sqlite"))
        || ends_with_exec(&u, &chars_of(".mdb")) {
        contains_ci(&ct, &chars_of("application/")) || contains_ci(
            &ct,
            &chars_of("application/octet-stream"),
        )
    } else if ends_with_exec(&u, &chars_of(".bak")) || contains_exact(&u, &chars_of(".backup"))
        || ends_with_exec(&u, &chars_of(".old")) {
        true
    } else {
        ends_with_exec(&u, &chars_of(".tmp")) || ends_with_exec(&u, &chars_of(".temp"))
            || ends_with_exec(&u, &chars_of(".swp")) || ends_with_exec(&u, &chars_of(".save"))
            || ends_with_exec(&u, &chars_of(".old.php"))
    }
}

} // verus!
