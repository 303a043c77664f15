//! Log files: names, limits and rotation.
//!
//! The shell installs the `tracing` subscriber and writes the files; this module decides their
//! names (`soundpush.log`, then `soundpush.1.log`, …, newest first), how large they grow, how
//! many are kept (desktop 5 × 10 MB, Android 3 × 2 MB), what a rotation renames, and which files
//! of an older naming scheme (daily files, `soundpush.2026-09-14.log`) are removed.

use vstd::prelude::*;
use crate::text::{decimal, digit_char, push_char, push_decimal};
use std::path::PathBuf;

verus! {

#[verifier::external_type_specification]
#[verifier::external_body]
pub struct ExPathBuf(PathBuf);

/// Log files are `<FILE_STEM>.log`, `<FILE_STEM>.1.log`, … (newest first).
pub const FILE_STEM: &'static str = "soundpush";

#[derive(Debug)]
pub struct LogConfig {
    pub dir: PathBuf,
    /// The current file rotates when it would grow past this.
    pub max_bytes: u64,
    /// Files kept, the current one included.
    pub max_files: usize,
    /// Also record `log` crate records from dependencies. Off when the extra layer itself writes
    /// through `log` (Android logcat), which would loop.
    pub bridge_log_crate: bool,
}

impl LogConfig {
    /// Desktop: 5 × 10 MB.
    pub fn desktop(dir: PathBuf) -> (r: LogConfig)
        ensures
            r.dir == dir,
            r.max_bytes == 10 * 1024 * 1024,
            r.max_files == 5,
            r.bridge_log_crate,
    {
        LogConfig { dir, max_bytes: 10 * 1024 * 1024, max_files: 5, bridge_log_crate: true }
    }

    /// Android: 3 × 2 MB.
    pub fn android(dir: PathBuf) -> (r: LogConfig)
        ensures
            r.dir == dir,
            r.max_bytes == 2 * 1024 * 1024,
            r.max_files == 3,
            !r.bridge_log_crate,
    {
        LogConfig { dir, max_bytes: 2 * 1024 * 1024, max_files: 3, bridge_log_crate: false }
    }
}

pub open spec fn stem() -> Seq<char> {
    seq!['s', 'o', 'u', 'n', 'd', 'p', 'u', 's', 'h']
}

pub open spec fn log_suffix() -> Seq<char> {
    seq!['.', 'l', 'o', 'g']
}

/// Name of the log file with the given index: `soundpush.log` for the current file,
/// `soundpush.<index>.log` for older ones.
pub open spec fn log_file_name(index: nat) -> Seq<char> {
    if index == 0 {
        stem() + log_suffix()
    } else {
        stem() + seq!['.'] + decimal(index) + log_suffix()
    }
}


/// Name of the log file with the given index (0 is the current file).
pub fn file_name(index: usize) -> (r: String)
    ensures
        r@ == log_file_name(index as nat),
{
    let mut out = FILE_STEM.to_owned();
    proof {
        reveal_strlit("soundpush");
    }
    assert(out@ == stem());
    if index > 0 {
        push_char(&mut out, '.');
        push_decimal(&mut out, index as u64);
    }
    let ghost before = out@;
    push_char(&mut out, '.');
    push_char(&mut out, 'l');
    push_char(&mut out, 'o');
    push_char(&mut out, 'g');
    assert(out@ =~= before + log_suffix());
    assert(out@ =~= log_file_name(index as nat));
    out
}

/// Names of the log files kept, newest first: `max_files` of them, and at least one.
pub fn file_names(max_files: usize) -> (r: Vec<String>)
    ensures
        r@.len() == (if max_files > 1 { max_files } else { 1 }),
        forall|i: int| 0 <= i < r@.len() ==> (#[trigger] r@[i])@ == log_file_name(i as nat),
{
    let n = if max_files > 1 {
        max_files
    } else {
        1
    };
    let mut out: Vec<String> = Vec::new();
    let mut i: usize = 0;
    while i < n
        invariant
            i <= n,
            out@.len() == i,
            forall|j: int| 0 <= j < i ==> (#[trigger] out@[j])@ == log_file_name(j as nat),
        decreases n - i,
    {
        out.push(file_name(i));
        i = i + 1;
    }
    out
}

/// `yyyy-mm-dd`.
pub open spec fn is_date(d: Seq<char>) -> bool {
    &&& d.len() == 10
    &&& forall|i: int|
        0 <= i < 10 ==> if i == 4 || i == 7 {
            d[i] == '-'
        } else {
            '0' <= #[trigger] d[i] <= '9'
        }
}

/// A file of the daily scheme that earlier versions used: `soundpush.<yyyy-mm-dd>.log`.
pub open spec fn is_daily_log_name(n: Seq<char>) -> bool {
    &&& n.len() >= 14
    &&& n.subrange(0, 10) == stem().push('.')
    &&& n.subrange(n.len() - 4, n.len() as int) == log_suffix()
    &&& is_date(n.subrange(10, n.len() - 4))
}

/// True for a file of the daily scheme that earlier versions used, which is removed.
pub fn is_daily_log(name: &str) -> (r: bool)
    ensures
        r == is_daily_log_name(name@),
{
    let n = name.unicode_len();
    if n != 24 {
        proof {
            if is_daily_log_name(name@) {
                assert(name@.subrange(10, name@.len() - 4).len() == 10);
            }
        }
        return false;
    }
    let ghost s = name@;
    let prefix = ['s', 'o', 'u', 'n', 'd', 'p', 'u', 's', 'h', '.'];
    let mut i: usize = 0;
    while i < 10
        invariant
            i <= 10,
            n == 24 == s.len(),
            s == name@,
            prefix@ == stem().push('.'),
            forall|j: int| 0 <= j < i ==> s[j] == prefix@[j],
        decreases 10 - i,
    {
        if name.get_char(i) != prefix[i] {
            assert(s.subrange(0, 10)[i as int] != stem().push('.')[i as int]);
            return false;
        }
        i = i + 1;
    }
    assert(s.subrange(0, 10) =~= stem().push('.'));
    if !(name.get_char(20) == '.' && name.get_char(21) == 'l' && name.get_char(22) == 'o'
        && name.get_char(23) == 'g') {
        proof {
            if is_daily_log_name(s) {
                assert(s.subrange(20, 24)[0] == '.');
                assert(s.subrange(20, 24)[1] == 'l');
                assert(s.subrange(20, 24)[2] == 'o');
                assert(s.subrange(20, 24)[3] == 'g');
            }
        }
        return false;
    }
    assert(s.subrange(20, 24) =~= log_suffix());
    let ghost d = s.subrange(10, 20);
    let mut k: usize = 0;
    while k < 10
        invariant
            k <= 10,
            s == name@,
            s.len() == 24,
            d == s.subrange(10, 20),
            forall|j: int|
                0 <= j < k ==> if j == 4 || j == 7 {
                    d[j] == '-'
                } else {
                    '0' <= #[trigger] d[j] <= '9'
                },
        decreases 10 - k,
    {
        let c = name.get_char(10 + k);
        assert(d[k as int] == c);
        let ok = if k == 4 || k == 7 {
            c == '-'
        } else {
            '0' <= c && c <= '9'
        };
        if !ok {
            return false;
        }
        k = k + 1;
    }
    true
}

/// A rotating file never grows past at least 1 KiB, and keeps at least one file.
pub fn rotation_limits(max_bytes: u64, max_files: usize) -> (r: (u64, usize))
    ensures
        r.0 == (if max_bytes > 1024 { max_bytes } else { 1024 }),
        r.1 == (if max_files > 1 { max_files } else { 1 }),
{
    (if max_bytes > 1024 { max_bytes } else { 1024 }, if max_files > 1 { max_files } else { 1 })
}

/// Before a write of `incoming` bytes: a file that already holds something and would grow past
/// `max_bytes` is rotated first.
pub fn must_rotate(written: u64, incoming: usize, max_bytes: u64) -> (r: bool)
    ensures
        r == (written > 0 && written + incoming > max_bytes),
{
    written > 0 && (incoming as u128) + (written as u128) > (max_bytes as u128)
}

/// The renames of a rotation, in order: each older file moves up one index, the oldest first,
/// so that file `i` becomes file `i + 1`; what was at the last index was removed before.
pub open spec fn rotation_plan(max_files: nat) -> Seq<(nat, nat)> {
    if max_files <= 1 {
        Seq::empty()
    } else {
        Seq::new((max_files - 1) as nat, |j: int| ((max_files - 2 - j) as nat, (max_files - 1 - j) as nat))
    }
}

/// The renames of a rotation (see [`rotation_plan`]); the file at index `max_files - 1` is
/// removed before them.
pub fn rotation_renames(max_files: usize) -> (r: Vec<(usize, usize)>)
    ensures
        r@.len() == rotation_plan(max_files as nat).len(),
        forall|i: int|
            0 <= i < r@.len() ==> (#[trigger] r@[i]).0 == rotation_plan(max_files as nat)[i].0
                && r@[i].1 == rotation_plan(max_files as nat)[i].1,
{
    let mut out: Vec<(usize, usize)> = Vec::new();
    if max_files <= 1 {
        return out;
    }
    let mut i: usize = max_files - 1;
    while i > 0
        invariant
            max_files > 1,
            i < max_files,
            out@.len() == max_files - 1 - i,
            forall|j: int|
                0 <= j < out@.len() ==> (#[trigger] out@[j]).0 == max_files - 2 - j && out@[j].1
                    == max_files - 1 - j,
        decreases i,
    {
        out.push((i - 1, i));
        i = i - 1;
    }
    out
}

proof fn lemma_decimal_len(n: nat)
    ensures
        decimal(n).len() >= 1,
        (n < 10) == (decimal(n).len() == 1),
    decreases n,
{
    if n >= 10 {
        lemma_decimal_len(n / 10);
    }
}

proof fn lemma_digit_char_injective(a: nat, b: nat)
    requires
        a < 10,
        b < 10,
        digit_char(a) == digit_char(b),
    ensures
        a == b,
{
}

proof fn lemma_decimal_injective(a: nat, b: nat)
    requires
        decimal(a) == decimal(b),
    ensures
        a == b,
    decreases a,
{
    lemma_decimal_len(a);
    lemma_decimal_len(b);
    if a < 10 {
        assert(decimal(b).len() == 1);
        assert(b < 10);
        assert(decimal(a) =~= seq![digit_char(a)]);
        assert(decimal(b) =~= seq![digit_char(b)]);
        assert(decimal(a)[0] == decimal(b)[0]);
        assert(seq![digit_char(a)][0] == digit_char(a));
        assert(seq![digit_char(b)][0] == digit_char(b));
        assert(digit_char(a) == digit_char(b));
        lemma_digit_char_injective(a, b);
    } else {
        let da = decimal(a);
        let db = decimal(b);
        assert(da.last() == db.last());
        lemma_digit_char_injective(a % 10, b % 10);
        assert(da.drop_last() =~= decimal(a / 10));
        assert(db.drop_last() =~= decimal(b / 10));
        lemma_decimal_injective(a / 10, b / 10);
    }
}

/// Every log file has its own name: the rotation never confuses two of them.
pub proof fn lemma_log_names_distinct(i: nat, j: nat)
    requires
        i != j,
    ensures
        log_file_name(i) != log_file_name(j),
{
    lemma_decimal_len(i);
    lemma_decimal_len(j);
    if i == 0 || j == 0 {
        assert(log_file_name(i).len() != log_file_name(j).len());
    }
    if i > 0 && j > 0 && log_file_name(i) == log_file_name(j) {
        let a = log_file_name(i);
        let b = log_file_name(j);
        assert(a.len() == b.len());
        assert(a.subrange(10, a.len() - 4) =~= decimal(i));
        assert(b.subrange(10, b.len() - 4) =~= decimal(j));
        lemma_decimal_injective(i, j);
    }
}

} // verus!
