//! Historical chunk layout: sealed `.tvim` segments grouped into one
//! directory per hour, `<root>/hour-<unix_hour>/seg-<unix_millis>.tvim`.
//!
//! Expired data is dropped a whole hour directory at a time; which
//! directories expire is decided here from their names alone, so entries
//! whose names do not follow the layout are never touched.

use vstd::prelude::*;

use crate::text::{
    chars_of, decimal, decimal_int, digits_value, is_digit, lemma_decimal_digits, parse_i64,
    parse_i64_spec, push_decimal_i128, push_str,
};

verus! {

/// Milliseconds per hour.
pub const MILLIS_PER_HOUR: i64 = 3_600_000;

/// Rust's `/` on integers: the quotient rounded toward zero.
pub open spec fn div_toward_zero(a: int, b: int) -> int {
    if a >= 0 { a / b } else { -((-a) / b) }
}

/// The hour a timestamp in milliseconds falls in (`unix_millis / 3_600_000`).
pub open spec fn hour_of_spec(unix_millis: int) -> int {
    div_toward_zero(unix_millis, MILLIS_PER_HOUR as int)
}

/// The hour of a timestamp, as the layout numbers hour directories.
pub fn hour_of(unix_millis: i64) -> (h: i64)
    ensures
        h == hour_of_spec(unix_millis as int),
{
    if unix_millis >= 0 {
        unix_millis / MILLIS_PER_HOUR
    } else if unix_millis == i64::MIN {
        -2_562_047_788_015i64
    } else {
        -((-unix_millis) / MILLIS_PER_HOUR)
    }
}

/// The name of an hour directory: `hour-<hour>`.
pub open spec fn hour_dir_spec(hour: int) -> Seq<char> {
    "hour-"@ + decimal_int(hour)
}

/// Names the directory of an hour.
pub fn hour_dir_name(hour: i64) -> (s: String)
    ensures
        s@ == hour_dir_spec(hour as int),
{
    let mut s = String::new();
    push_str(&mut s, "hour-");
    push_decimal_i128(&mut s, hour as i128);
    s
}

/// The name of a segment file: `seg-<unix_millis>.tvim`.
pub open spec fn segment_file_spec(unix_millis: int) -> Seq<char> {
    "seg-"@ + decimal_int(unix_millis) + ".tvim"@
}

/// Names the segment sealed at `unix_millis`.
pub fn segment_file_name(unix_millis: i64) -> (s: String)
    ensures
        s@ == segment_file_spec(unix_millis as int),
{
    let mut s = String::new();
    push_str(&mut s, "seg-");
    push_decimal_i128(&mut s, unix_millis as i128);
    push_str(&mut s, ".tvim");
    s
}

/// `Path::join` of a relative name onto `base` on Unix: a `/` is put
/// between them unless `base` is empty or already ends with one.
pub open spec fn join_spec(base: Seq<char>, name: Seq<char>) -> Seq<char> {
    if base.len() == 0 {
        name
    } else if base.last() == '/' {
        base + name
    } else {
        base + "/"@ + name
    }
}

/// Joins a relative name onto a directory path.
pub fn join(base: &str, name: &str) -> (s: String)
    ensures
        s@ == join_spec(base@, name@),
{
    let cs = chars_of(base);
    let mut s = String::from_str(base);
    if cs.len() > 0 && cs[cs.len() - 1] != '/' {
        push_str(&mut s, "/");
    }
    push_str(&mut s, name);
    s
}

/// The chunk store: its root directory.
pub struct ChunkStore {
    root: String,
}

impl ChunkStore {
    /// The root directory.
    pub closed spec fn root_view(&self) -> Seq<char> {
        self.root@
    }

    /// A store rooted at `root` (the directory is created by the caller).
    pub fn at(root: &str) -> (c: ChunkStore)
        ensures
            c.root_view() == root@,
    {
        ChunkStore { root: String::from_str(root) }
    }

    /// The root directory.
    pub fn root(&self) -> (s: &str)
        ensures
            s@ == self.root_view(),
    {
        self.root.as_str()
    }

    /// The hour directory a segment sealed at `unix_millis` belongs in.
    pub fn hour_dir(&self, unix_millis: i64) -> (s: String)
        ensures
            s@ == join_spec(self.root_view(), hour_dir_spec(hour_of_spec(unix_millis as int))),
    {
        let name = hour_dir_name(hour_of(unix_millis));
        join(self.root.as_str(), name.as_str())
    }

    /// The path of the segment sealed at `unix_millis`:
    /// `<root>/hour-<hour>/seg-<unix_millis>.tvim`.
    pub fn segment_path(&self, unix_millis: i64) -> (s: String)
        ensures
            s@ == join_spec(
                join_spec(self.root_view(), hour_dir_spec(hour_of_spec(unix_millis as int))),
                segment_file_spec(unix_millis as int),
            ),
    {
        let dir = self.hour_dir(unix_millis);
        let file = segment_file_name(unix_millis);
        join(dir.as_str(), file.as_str())
    }
}

/// The first hour that is kept: the current hour minus the retention,
/// the retention read as an `i64` (`as i64`, wrapping above `i64::MAX`).
pub open spec fn sweep_cutoff_spec(retention_hours: u64, now_millis: int) -> int {
    hour_of_spec(now_millis) - (retention_hours as i64)
}

/// The first hour a sweep at `now_millis` keeps; hour directories below
/// it are deleted. The subtraction must not overflow.
pub fn sweep_cutoff(retention_hours: u64, now_millis: i64) -> (c: i64)
    requires
        i64::MIN <= sweep_cutoff_spec(retention_hours, now_millis as int) <= i64::MAX,
    ensures
        c == sweep_cutoff_spec(retention_hours, now_millis as int),
{
    #[verifier::truncate]
    let r = retention_hours as i64;
    hour_of(now_millis) - r
}

/// The hour an entry of the chunk root names, when its name is
/// `hour-<i64>`.
pub open spec fn named_hour(name: Seq<char>) -> Option<i64> {
    if "hour-"@.is_prefix_of(name) {
        parse_i64_spec(name.skip(5))
    } else {
        None
    }
}

/// Whether a sweep with this cutoff deletes the root entry called `name`:
/// only `hour-<n>` directories with `n` below the cutoff.
pub open spec fn expired_spec(name: Seq<char>, cutoff: i64) -> bool {
    match named_hour(name) {
        Some(h) => h < cutoff,
        None => false,
    }
}

/// Decides whether a sweep deletes the root entry `name`.
pub fn expired(name: &str, cutoff: i64) -> (b: bool)
    ensures
        b == expired_spec(name@, cutoff),
{
    proof {
        reveal_strlit("hour-");
    }
    let cs = chars_of(name);
    if cs.len() < 5 || cs[0] != 'h' || cs[1] != 'o' || cs[2] != 'u' || cs[3] != 'r' || cs[4] != '-' {
        proof {
            if "hour-"@.is_prefix_of(name@) {
                let p = "hour-"@;
                assert(p.len() == 5 && p[0] == 'h' && p[1] == 'o' && p[2] == 'u' && p[3] == 'r' && p[4] == '-');
                assert(name@[0] == p[0] && name@[1] == p[1] && name@[2] == p[2]);
                assert(name@[3] == p[3] && name@[4] == p[4]);
            }
        }
        return false;
    }
    assert("hour-"@ =~= cs@.take(5));
    let rest = vstd::slice::slice_subrange(cs.as_slice(), 5, cs.len());
    assert(rest@ =~= name@.skip(5));
    match parse_i64(rest) {
        Some(h) => h < cutoff,
        None => false,
    }
}

/// The name of an hour directory reads back as its hour.
pub proof fn lemma_hour_dir_reads_back(hour: i64)
    ensures
        named_hour(hour_dir_spec(hour as int)) == Some(hour),
{
    reveal_strlit("hour-");
    let name = hour_dir_spec(hour as int);
    assert(name.take(5) =~= "hour-"@);
    assert(name.skip(5) =~= decimal_int(hour as int));
    let m: nat = if hour < 0 { (-hour) as nat } else { hour as nat };
    lemma_decimal_digits(m);
    let d = decimal(m);
    assert(is_digit(d[0]));
    if hour < 0 {
        let s = decimal_int(hour as int);
        assert(s.drop_first() =~= d);
    }
}

/// A segment survives a sweep exactly when its hour is not below the
/// cutoff: the sweep deletes the segment's hour directory iff the hour the
/// segment was sealed in is older than the retention allows.
pub proof fn lemma_segment_expires_by_hour(unix_millis: i64, cutoff: i64)
    ensures
        expired_spec(hour_dir_spec(hour_of_spec(unix_millis as int)), cutoff)
            == (hour_of_spec(unix_millis as int) < cutoff),
{
    let h = hour_of_spec(unix_millis as int);
    assert(i64::MIN <= h <= i64::MAX);
    lemma_hour_dir_reads_back(h as i64);
}

} // verus!
