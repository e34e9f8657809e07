//! Facts about files: sizes and permissions in words, and what a file operation
//! found before and left behind.
use std::time::SystemTime;
use vstd::prelude::*;

use crate::text;
use crate::text::{concat2, concat3, dec_u64};

verus! {

/// What the file system tells of a path that exists.
#[derive(Debug, Clone, Copy)]
pub struct FileMeta {
    pub len: u64,
    pub modified: Option<SystemTime>,
    pub mode: u32,
    pub is_dir: bool,
}

/// What is known of source and destination before a command runs.
#[derive(Debug, Clone, Copy)]
pub struct PreFlightInfo {
    pub source_size: Option<u64>,
    pub source_mtime: Option<SystemTime>,
    pub source_permissions: Option<u32>,
    pub dest_exists: bool,
    pub dest_size: Option<u64>,
    pub dest_mtime: Option<SystemTime>,
}

/// What is known of the destination after a command ran.
#[derive(Debug, Clone, Copy)]
pub struct PostFlightInfo {
    pub dest_size: Option<u64>,
    pub dest_mtime: Option<SystemTime>,
    pub size_match: bool,
    pub file_count: Option<u64>,
    pub total_bytes: Option<u64>,
}

/// The files of a directory tree and their bytes.
#[derive(Debug, Clone, Copy, PartialEq, Eq, Structural)]
pub struct TreeInfo {
    pub file_count: u64,
    pub total_bytes: u64,
}

/// One entry of a directory.
#[derive(Debug, Clone, Copy, PartialEq, Eq, Structural)]
pub enum TreeEntry {
    /// A file and its length.
    File(u64),
    /// A directory and what is in it.
    Dir(TreeInfo),
    /// What is neither, or cannot be read.
    Other,
}

/// How a file operation is told.
#[derive(Debug, Clone)]
pub struct NarratedResult {
    pub success: bool,
    pub message: String,
    pub exit_code: i32,
}

// ---------------------------------------------------------------------------
// Sizes
// ---------------------------------------------------------------------------

/// The integer nearest to `num / den`; of two equally near ones the even one.
pub open spec fn half_even(num: nat, den: nat) -> nat {
    let q = num / den;
    let r = num % den;
    if 2 * r < den || (2 * r == den && q % 2 == 0) {
        q
    } else {
        q + 1
    }
}

/// The distance between neighbouring double-precision numbers at `n`.
pub open spec fn spacing(n: nat) -> nat
    decreases n,
{
    if n < 0x20_0000_0000_0000 {
        1
    } else {
        2 * spacing(n / 2)
    }
}

/// `n` in double precision.
pub open spec fn in_double(n: nat) -> nat {
    half_even(n, spacing(n)) * spacing(n)
}

/// A number of tenths with one decimal place.
pub open spec fn one_decimal(tenths: nat) -> Seq<char> {
    text::dec(tenths / 10) + "."@ + text::dec(tenths % 10)
}

/// A number of bytes in a unit of `size` bytes, rounded to one decimal place.
pub open spec fn in_unit(bytes: nat, size: nat) -> Seq<char> {
    one_decimal(half_even(10 * in_double(bytes), size))
}

/// A number of bytes for people to read.
pub open spec fn size_text(bytes: nat) -> Seq<char> {
    if bytes < 1024 {
        text::dec(bytes) + " B"@
    } else if bytes < 1048576 {
        in_unit(bytes, 1024) + " KB"@
    } else if bytes < 1073741824 {
        in_unit(bytes, 1048576) + " MB"@
    } else {
        in_unit(bytes, 1073741824) + " GB"@
    }
}

fn nearest(num: u128, den: u128) -> (r: u128)
    requires
        0 < den < 0x1_0000_0000_0000_0000,
        num < 0x100_0000_0000_0000_0000,
    ensures
        r == half_even(num as nat, den as nat),
        r * den <= num + den,
{
    let q: u128 = num / den;
    let rest: u128 = num % den;
    proof {
        vstd::arithmetic::div_mod::lemma_fundamental_div_mod(num as int, den as int);
        vstd::arithmetic::mul::lemma_mul_is_commutative(den as int, q as int);
        vstd::arithmetic::mul::lemma_mul_is_distributive_add_other_way(
            den as int,
            q as int,
            1,
        );
        assert(q <= num) by (nonlinear_arith)
            requires
                q * den + rest == num,
                den > 0,
                rest >= 0,
                q >= 0,
        ;
    }
    if 2 * rest < den || (2 * rest == den && q % 2 == 0) {
        q
    } else {
        q + 1
    }
}

fn spacing_of(n: u64) -> (r: u128)
    ensures
        r == spacing(n as nat),
        0 < r <= 0x1_0000_0000_0000,
{
    let mut m: u64 = n;
    let mut unit: u128 = 1;
    while m >= 0x20_0000_0000_0000
        invariant
            unit * spacing(m as nat) == spacing(n as nat),
            0 < unit,
            unit * m <= n,
        decreases m,
    {
        let ghost before = m;
        let ghost had = unit;
        proof {
            assert(unit <= 0x800) by (nonlinear_arith)
                requires
                    unit * m <= n,
                    m >= 0x20_0000_0000_0000,
                    n <= 0xffff_ffff_ffff_ffff,
            ;
        }
        m = m / 2;
        unit = unit * 2;
        proof {
            let s = spacing(m as nat);
            assert(spacing(before as nat) == 2 * s);
            assert(had * (2 * s) == (had * 2) * s) by (nonlinear_arith);
            assert((had * 2) * m <= had * before) by (nonlinear_arith)
                requires
                    2 * m <= before,
            ;
        }
    }
    proof {
        let s = spacing(m as nat);
        assert(unit * s == unit) by (nonlinear_arith)
            requires
                s == 1,
        ;
        lemma_spacing_is_small(n as nat);
    }
    unit
}

/// The spacing is small beside the number.
proof fn lemma_spacing_is_small(n: nat)
    ensures
        1 <= spacing(n),
        n >= 0x20_0000_0000_0000 ==> spacing(n) * 0x10_0000_0000_0000 <= n,
        n < 0x20_0000_0000_0000 ==> spacing(n) == 1,
    decreases n,
{
    if n >= 0x20_0000_0000_0000 {
        lemma_spacing_is_small(n / 2);
    }
}

/// A whole number of bytes in a unit, rounded to one decimal place.
fn size_in(bytes: u64, size: u128) -> (r: String)
    requires
        0 < size <= 1073741824,
    ensures
        r@ == in_unit(bytes as nat, size as nat),
{
    let unit = spacing_of(bytes);
    let steps = nearest(bytes as u128, unit);
    proof {
        lemma_spacing_is_small(bytes as nat);
    }
    let double: u128 = steps * unit;
    let tenths = nearest(10 * double, size);
    proof {
        assert(tenths <= 10 * double + size) by (nonlinear_arith)
            requires
                tenths * size <= 10 * double + size,
                size >= 1,
        ;
    }
    let whole = dec_u128(tenths / 10);
    let part = dec_u64((tenths % 10) as u64);
    concat3(whole.as_str(), ".", part.as_str())
}

fn dec_u128(n: u128) -> (r: String)
    requires
        n < 0x1000_0000_0000_0000_0000,
    ensures
        r@ == text::dec(n as nat),
    decreases n,
{
    if n <= 0xffff_ffff_ffff_ffff {
        dec_u64(n as u64)
    } else {
        let mut r = dec_u128(n / 10);
        let last = dec_u64((n % 10) as u64);
        r.append(last.as_str());
        proof {
            assert(last@ =~= seq![text::digit((n % 10) as nat)]);
            assert(r@ =~= text::dec((n / 10) as nat).push(text::digit((n % 10) as nat)));
        }
        r
    }
}

/// Writes a number of bytes for people to read.
pub fn human_size(bytes: u64) -> (r: String)
    ensures
        r@ == size_text(bytes as nat),
{
    if bytes < 1024 {
        let n = dec_u64(bytes);
        concat2(n.as_str(), " B")
    } else if bytes < 1048576 {
        let n = size_in(bytes, 1024);
        concat2(n.as_str(), " KB")
    } else if bytes < 1073741824 {
        let n = size_in(bytes, 1048576);
        concat2(n.as_str(), " MB")
    } else {
        let n = size_in(bytes, 1073741824);
        concat2(n.as_str(), " GB")
    }
}

// ---------------------------------------------------------------------------
// Permissions
// ---------------------------------------------------------------------------

/// A letter where the bit is set, else a dash.
pub open spec fn flag(mode: u32, bit: u32, letter: char) -> char {
    if mode & bit != 0 {
        letter
    } else {
        '-'
    }
}

/// The permission bits of a mode, for owner, group and others.
pub open spec fn permissions_text(mode: u32) -> Seq<char> {
    seq![
        flag(mode, 0o400, 'r'),
        flag(mode, 0o200, 'w'),
        flag(mode, 0o100, 'x'),
        flag(mode, 0o040, 'r'),
        flag(mode, 0o020, 'w'),
        flag(mode, 0o010, 'x'),
        flag(mode, 0o004, 'r'),
        flag(mode, 0o002, 'w'),
        flag(mode, 0o001, 'x'),
    ]
}

fn push_flag(out: &mut String, mode: u32, bit: u32, letter: char)
    ensures
        final(out)@ == old(out)@.push(flag(mode, bit, letter)),
{
    if mode & bit != 0 {
        out.push(letter);
    } else {
        out.push('-');
    }
}

/// Writes a Unix permission mode as `rwxrwxrwx`.
pub fn format_permissions(mode: u32) -> (r: String)
    ensures
        r@ == permissions_text(mode),
{
    let mut r = String::new();
    push_flag(&mut r, mode, 0o400, 'r');
    push_flag(&mut r, mode, 0o200, 'w');
    push_flag(&mut r, mode, 0o100, 'x');
    push_flag(&mut r, mode, 0o040, 'r');
    push_flag(&mut r, mode, 0o020, 'w');
    push_flag(&mut r, mode, 0o010, 'x');
    push_flag(&mut r, mode, 0o004, 'r');
    push_flag(&mut r, mode, 0o002, 'w');
    push_flag(&mut r, mode, 0o001, 'x');
    assert(r@ =~= permissions_text(mode));
    r
}

// ---------------------------------------------------------------------------
// Files
// ---------------------------------------------------------------------------

/// Describes a path by its name and what is known of it.
pub fn file_info(name: &str, meta: Option<FileMeta>) -> (r: String)
    ensures
        r@ == match meta {
            Some(meta) => name@ + " ("@ + (size_text(meta.len as nat) + ", "@ + (permissions_text(
                meta.mode,
            ) + ")"@)),
            None => name@ + " (not found)"@,
        },
{
    match meta {
        Some(meta) => {
            let size = human_size(meta.len);
            let permissions = format_permissions(meta.mode);
            let closed = concat2(permissions.as_str(), ")");
            let told = concat3(size.as_str(), ", ", closed.as_str());
            concat3(name, " (", told.as_str())
        },
        None => concat2(name, " (not found)"),
    }
}

pub open spec fn size_of_meta(meta: Option<FileMeta>) -> Option<u64> {
    match meta {
        Some(meta) => Some(meta.len),
        None => None,
    }
}

pub open spec fn mtime_of_meta(meta: Option<FileMeta>) -> Option<SystemTime> {
    match meta {
        Some(meta) => meta.modified,
        None => None,
    }
}

/// What is known of source and destination before a command runs.
pub fn gather_pre_flight(source: Option<FileMeta>, dest: Option<FileMeta>) -> (r: PreFlightInfo)
    ensures
        r.source_size == size_of_meta(source),
        r.source_mtime == mtime_of_meta(source),
        r.source_permissions == match source {
            Some(meta) => Some(meta.mode),
            None => None,
        },
        r.dest_exists == dest is Some,
        r.dest_size == size_of_meta(dest),
        r.dest_mtime == mtime_of_meta(dest),
{
    let (source_size, source_mtime, source_permissions) = match source {
        Some(meta) => (Some(meta.len), meta.modified, Some(meta.mode)),
        None => (None, None, None),
    };
    let (dest_size, dest_mtime) = match dest {
        Some(meta) => (Some(meta.len), meta.modified),
        None => (None, None),
    };
    PreFlightInfo {
        source_size,
        source_mtime,
        source_permissions,
        dest_exists: dest.is_some(),
        dest_size,
        dest_mtime,
    }
}

/// Both sizes are known and the same.
pub open spec fn sizes_match(a: Option<u64>, b: Option<u64>) -> bool {
    a is Some && b is Some && a->0 == b->0
}

/// What is known of the destination after a command ran, beside what was known
/// of the source before. The tree counts where the destination is a directory.
pub fn gather_post_flight(dest: Option<FileMeta>, pre: &PreFlightInfo, tree: TreeInfo) -> (r:
    PostFlightInfo)
    ensures
        r.dest_size == size_of_meta(dest),
        r.dest_mtime == mtime_of_meta(dest),
        r.size_match == sizes_match(pre.source_size, r.dest_size),
        match dest {
            Some(meta) if meta.is_dir => {
                &&& r.file_count == Some(tree.file_count)
                &&& r.total_bytes == Some(tree.total_bytes)
            },
            _ => r.file_count is None && r.total_bytes is None,
        },
{
    let (dest_size, dest_mtime, is_dir) = match dest {
        Some(meta) => (Some(meta.len), meta.modified, meta.is_dir),
        None => (None, None, false),
    };
    let size_match = match (pre.source_size, dest_size) {
        (Some(source), Some(dest)) => source == dest,
        _ => false,
    };
    let (file_count, total_bytes) = if is_dir {
        (Some(tree.file_count), Some(tree.total_bytes))
    } else {
        (None, None)
    };
    PostFlightInfo { dest_size, dest_mtime, size_match, file_count, total_bytes }
}

// ---------------------------------------------------------------------------
// Directory trees
// ---------------------------------------------------------------------------

/// The number of files in a directory and below.
pub open spec fn files_in(entries: Seq<TreeEntry>) -> nat
    decreases entries.len(),
{
    if entries.len() == 0 {
        0
    } else {
        files_in(entries.drop_last()) + match entries.last() {
            TreeEntry::File(_) => 1,
            TreeEntry::Dir(tree) => tree.file_count as nat,
            TreeEntry::Other => 0,
        }
    }
}

/// The bytes of the files in a directory and below.
pub open spec fn bytes_in(entries: Seq<TreeEntry>) -> nat
    decreases entries.len(),
{
    if entries.len() == 0 {
        0
    } else {
        bytes_in(entries.drop_last()) + match entries.last() {
            TreeEntry::File(len) => len as nat,
            TreeEntry::Dir(tree) => tree.total_bytes as nat,
            TreeEntry::Other => 0,
        }
    }
}

proof fn lemma_parts_are_smaller(entries: Seq<TreeEntry>, i: int)
    requires
        0 <= i <= entries.len(),
    ensures
        files_in(entries.take(i)) <= files_in(entries),
        bytes_in(entries.take(i)) <= bytes_in(entries),
    decreases entries.len(),
{
    if i == entries.len() {
        assert(entries.take(i) =~= entries);
    } else {
        lemma_parts_are_smaller(entries.drop_last(), i);
        assert(entries.drop_last().take(i) =~= entries.take(i));
    }
}

/// Counts the files of a directory and their bytes.
pub fn gather_tree_info(entries: &[TreeEntry]) -> (r: TreeInfo)
    requires
        files_in(entries@) <= u64::MAX,
        bytes_in(entries@) <= u64::MAX,
    ensures
        r.file_count == files_in(entries@),
        r.total_bytes == bytes_in(entries@),
{
    let mut file_count: u64 = 0;
    let mut total_bytes: u64 = 0;
    let mut i: usize = 0;
    while i < entries.len()
        invariant
            i <= entries@.len(),
            file_count == files_in(entries@.take(i as int)),
            total_bytes == bytes_in(entries@.take(i as int)),
            files_in(entries@) <= u64::MAX,
            bytes_in(entries@) <= u64::MAX,
        decreases entries.len() - i,
    {
        proof {
            assert(entries@.take(i + 1).drop_last() =~= entries@.take(i as int));
            lemma_parts_are_smaller(entries@, i + 1);
        }
        match entries[i] {
            TreeEntry::File(len) => {
                file_count += 1;
                total_bytes += len;
            },
            TreeEntry::Dir(tree) => {
                file_count += tree.file_count;
                total_bytes += tree.total_bytes;
            },
            TreeEntry::Other => {},
        }
        i += 1;
    }
    assert(entries@.take(i as int) =~= entries@);
    TreeInfo { file_count, total_bytes }
}

/// A quotient is rounded to an integer that is no further from it than a half, and to
/// the even one where two are equally near.
pub proof fn law_rounding_goes_to_the_nearest(num: nat, den: nat)
    requires
        den > 0,
    ensures
        2 * (half_even(num, den) * den) <= 2 * num + den,
        2 * num <= 2 * (half_even(num, den) * den) + den,
        2 * (half_even(num, den) * den) == 2 * num + den || 2 * num == 2 * (half_even(num, den)
            * den) + den ==> half_even(num, den) % 2 == 0,
{
    let q = num / den;
    let r = num % den;
    vstd::arithmetic::div_mod::lemma_fundamental_div_mod(num as int, den as int);
    assert(q * den == den * q) by (nonlinear_arith);
    assert((q + 1) * den == q * den + den) by (nonlinear_arith);
    vstd::arithmetic::div_mod::lemma_mod_bound(num as int, den as int);
}

/// Below two to the fifty-third every number of bytes is exact; above it a number is
/// rounded to the nearest multiple of a power of two that keeps fifty-three bits.
pub proof fn law_large_sizes_keep_their_leading_bits(n: nat)
    ensures
        n < 0x20_0000_0000_0000 ==> in_double(n) == n,
        spacing(n) > 0,
        n >= 0x20_0000_0000_0000 ==> 0x10_0000_0000_0000 * spacing(n) <= n < 0x20_0000_0000_0000
            * spacing(n),
        2 * in_double(n) <= 2 * n + spacing(n),
        2 * n <= 2 * in_double(n) + spacing(n),
{
    lemma_spacing(n);
    law_rounding_goes_to_the_nearest(n, spacing(n));
}

proof fn lemma_spacing(n: nat)
    ensures
        spacing(n) > 0,
        n < 0x20_0000_0000_0000 ==> spacing(n) == 1,
        n >= 0x20_0000_0000_0000 ==> 0x10_0000_0000_0000 * spacing(n) <= n < 0x20_0000_0000_0000
            * spacing(n),
    decreases n,
{
    if n >= 0x20_0000_0000_0000 {
        lemma_spacing(n / 2);
    }
}

/// Sizes are told in bytes below a kilobyte, and else in the largest unit that they
/// reach, gigabytes at most, rounded to the nearest tenth.
pub proof fn law_sizes_are_told_in_the_largest_unit(bytes: nat, tenths: nat)
    requires
        bytes < 0x20_0000_0000_0000,
    ensures
        bytes < 1024 ==> size_text(bytes) == text::dec(bytes) + seq![' ', 'B'],
        1024 <= bytes < 1024 * 1024 && tenths == half_even(10 * bytes, 1024) ==> size_text(bytes)
            == text::dec(tenths / 10) + seq!['.'] + text::dec(tenths % 10) + seq![' ', 'K', 'B'],
        1024 * 1024 <= bytes < 1024 * 1024 * 1024 && tenths == half_even(10 * bytes, 1024 * 1024)
            ==> size_text(bytes) == text::dec(tenths / 10) + seq!['.'] + text::dec(tenths % 10)
            + seq![' ', 'M', 'B'],
        1024 * 1024 * 1024 <= bytes && tenths == half_even(10 * bytes, 1024 * 1024 * 1024)
            ==> size_text(bytes) == text::dec(tenths / 10) + seq!['.'] + text::dec(tenths % 10)
            + seq![' ', 'G', 'B'],
{
    law_large_sizes_keep_their_leading_bits(bytes);
    reveal_strlit(".");
    reveal_strlit(" B");
    reveal_strlit(" KB");
    reveal_strlit(" MB");
    reveal_strlit(" GB");
    assert("."@ =~= seq!['.']);
    assert(" B"@ =~= seq![' ', 'B']);
    assert(" KB"@ =~= seq![' ', 'K', 'B']);
    assert(" MB"@ =~= seq![' ', 'M', 'B']);
    assert(" GB"@ =~= seq![' ', 'G', 'B']);
}

/// The letters of a mode are those of its three octal digits, the owner's first: four
/// is for reading, two for writing and one for executing.
pub proof fn law_permissions_are_octal_digits(mode: u32, who: int)
    requires
        0 <= who < 3,
    ensures
        permissions_text(mode).len() == 9,
        ({
            let digit: int = if who == 0 {
                (mode as int / 64) % 8
            } else if who == 1 {
                (mode as int / 8) % 8
            } else {
                mode as int % 8
            };
            &&& permissions_text(mode)[3 * who] == (if digit >= 4 {
                'r'
            } else {
                '-'
            })
            &&& permissions_text(mode)[3 * who + 1] == (if (digit / 2) % 2 == 1 {
                'w'
            } else {
                '-'
            })
            &&& permissions_text(mode)[3 * who + 2] == (if digit % 2 == 1 {
                'x'
            } else {
                '-'
            })
        }),
{
    assert((mode & 0o400 != 0) == ((mode / 64) % 8 >= 4)) by (bit_vector);
    assert((mode & 0o200 != 0) == (((mode / 64) % 8 / 2) % 2 == 1)) by (bit_vector);
    assert((mode & 0o100 != 0) == ((mode / 64) % 8 % 2 == 1)) by (bit_vector);
    assert((mode & 0o040 != 0) == ((mode / 8) % 8 >= 4)) by (bit_vector);
    assert((mode & 0o020 != 0) == (((mode / 8) % 8 / 2) % 2 == 1)) by (bit_vector);
    assert((mode & 0o010 != 0) == ((mode / 8) % 8 % 2 == 1)) by (bit_vector);
    assert((mode & 0o004 != 0) == (mode % 8 >= 4)) by (bit_vector);
    assert((mode & 0o002 != 0) == ((mode % 8 / 2) % 2 == 1)) by (bit_vector);
    assert((mode & 0o001 != 0) == (mode % 8 % 2 == 1)) by (bit_vector);
}

/// A tree holds what its parts hold: a file counts once with its bytes, a directory with
/// all that it holds, and anything else not at all.
pub proof fn law_trees_add_up(a: Seq<TreeEntry>, b: Seq<TreeEntry>, len: u64, tree: TreeInfo)
    ensures
        files_in(a + b) == files_in(a) + files_in(b),
        bytes_in(a + b) == bytes_in(a) + bytes_in(b),
        files_in(seq![TreeEntry::File(len)]) == 1,
        bytes_in(seq![TreeEntry::File(len)]) == len,
        files_in(seq![TreeEntry::Dir(tree)]) == tree.file_count,
        bytes_in(seq![TreeEntry::Dir(tree)]) == tree.total_bytes,
        files_in(seq![TreeEntry::Other]) == 0,
        bytes_in(seq![TreeEntry::Other]) == 0,
    decreases b.len(),
{
    let none = Seq::<TreeEntry>::empty();
    assert(seq![TreeEntry::File(len)].drop_last() =~= none);
    assert(seq![TreeEntry::Dir(tree)].drop_last() =~= none);
    assert(seq![TreeEntry::Other].drop_last() =~= none);
    assert(files_in(none) == 0 && bytes_in(none) == 0);
    if b.len() == 0 {
        assert(a + b =~= a);
    } else {
        law_trees_add_up(a, b.drop_last(), len, tree);
        assert((a + b).drop_last() =~= a + b.drop_last());
    }
}

/// After a command the sizes match exactly where both are known and the same, and a tree
/// is told of a directory only.
pub proof fn law_sizes_match_where_both_are_known(
    dest: Option<FileMeta>,
    pre: &PreFlightInfo,
    tree: TreeInfo,
    r: PostFlightInfo,
)
    requires
        call_ensures(gather_post_flight, (dest, pre, tree), r),
    ensures
        r.size_match <==> dest is Some && pre.source_size == Some(dest->0.len),
        r.file_count == (if dest is Some && dest->0.is_dir {
            Some(tree.file_count)
        } else {
            None
        }),
        r.total_bytes == (if dest is Some && dest->0.is_dir {
            Some(tree.total_bytes)
        } else {
            None
        }),
{
}

} // verus!
