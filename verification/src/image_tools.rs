use vstd::prelude::*;

use crate::apperror::AppError;
use crate::mbr::Partition;

verus! {

/// Whether a partition type byte is in the allow-list of recognized
/// FAT / EFI-System type codes.
pub open spec fn spec_allowed_type(t: u8) -> bool {
    t == 0x0b || t == 0xef
}

/// `c` with an ASCII lower-case letter folded to its upper-case form.
pub open spec fn upper_byte(c: u8) -> u8 {
    if 97 <= c <= 122 {
        (c - 32) as u8
    } else {
        c
    }
}

/// `s` with every ASCII lower-case letter folded to upper case.
pub open spec fn spec_upper(s: Seq<u8>) -> Seq<u8> {
    s.map_values(|c: u8| upper_byte(c))
}

/// The identifying substring a boot volume's label must contain,
/// after case normalization: the bytes of `"HAIKU"`.
pub open spec fn haiku_tag() -> Seq<u8> {
    seq![72u8, 65u8, 73u8, 75u8, 85u8]
}

/// Whether `needle` occurs contiguously inside `hay`.
pub open spec fn spec_contains(hay: Seq<u8>, needle: Seq<u8>) -> bool {
    exists|i: int|
        0 <= i <= hay.len() - needle.len() && #[trigger] hay.subrange(i, i + needle.len())
            == needle
}

/// Whether a volume label identifies the boot volume: its case-normalized
/// bytes contain the identifying substring.
pub open spec fn spec_label_matches(l: Seq<u8>) -> bool {
    spec_contains(spec_upper(l), haiku_tag())
}

/// `s` folded to ASCII upper case.
fn to_upper(s: &Vec<u8>) -> (r: Vec<u8>)
    ensures
        r@ == spec_upper(s@),
{
    let mut r: Vec<u8> = Vec::new();
    let mut i: usize = 0;
    while i < s.len()
        invariant
            i <= s@.len(),
            r@.len() == i,
            forall|j: int| 0 <= j < i ==> r@[j] == upper_byte(s@[j]),
        decreases s@.len() - i,
    {
        let c = s[i];
        if 97 <= c && c <= 122 {
            r.push(c - 32);
        } else {
            r.push(c);
        }
        i = i + 1;
    }
    proof {
        assert(r@ =~= spec_upper(s@));
    }
    r
}

/// Whether `needle` stands at position `i` of `hay`.
fn match_at(hay: &Vec<u8>, needle: &Vec<u8>, i: usize) -> (r: bool)
    requires
        i + needle@.len() <= hay@.len(),
    ensures
        r == (hay@.subrange(i as int, i + needle@.len()) == needle@),
{
    let hn: usize = hay.len();
    let mut j: usize = 0;
    while j < needle.len()
        invariant
            hn == hay@.len(),
            j <= needle@.len(),
            i + needle@.len() <= hay@.len(),
            forall|k: int| 0 <= k < j ==> hay@[i + k] == needle@[k],
        decreases needle@.len() - j,
    {
        if hay[i + j] != needle[j] {
            proof {
                assert(hay@.subrange(i as int, i + needle@.len())[j as int] != needle@[j as int]);
            }
            return false;
        }
        j = j + 1;
    }
    proof {
        assert(hay@.subrange(i as int, i + needle@.len()) =~= needle@);
    }
    true
}

/// Whether `needle` occurs contiguously inside `hay`.
fn contains_needle(hay: &Vec<u8>, needle: &Vec<u8>) -> (r: bool)
    ensures
        r == spec_contains(hay@, needle@),
{
    if needle.len() > hay.len() {
        proof {
            assert(!spec_contains(hay@, needle@));
        }
        return false;
    }
    if needle.len() == 0 {
        proof {
            assert(hay@.subrange(0, 0 + needle@.len() as int) =~= needle@);
            assert(spec_contains(hay@, needle@));
        }
        return true;
    }
    let hn: usize = hay.len();
    let last: usize = hay.len() - needle.len();
    let mut i: usize = 0;
    while i <= last
        invariant
            hn == hay@.len(),
            1 <= needle@.len() <= hay@.len(),
            last == hay@.len() - needle@.len(),
            last < hay@.len(),
            i <= last + 1,
            forall|k: int|
                0 <= k < i ==> #[trigger] hay@.subrange(k, k + needle@.len()) != needle@,
        decreases last + 1 - i,
    {
        if match_at(hay, needle, i) {
            return true;
        }
        i = i + 1;
    }
    false
}

/// Whether the case-normalized label contains the identifying substring.
pub fn label_matches(label: &Vec<u8>) -> (r: bool)
    ensures
        r == spec_label_matches(label@),
{
    let upper = to_upper(label);
    let needle: Vec<u8> = vec![72u8, 65u8, 73u8, 75u8, 85u8];
    proof {
        assert(needle@ =~= haiku_tag());
    }
    contains_needle(&upper, &needle)
}

/// The byte range a candidate entry covers: `(start, size)` in bytes, with
/// `start = starting sector * sector size` and `size = sector count *
/// sector size`. `None` when the entry's type is not allow-listed, or when
/// the range's end does not fit in a 64-bit offset.
pub fn candidate_range(p: &Partition, sector_size: u64) -> (r: Option<(u64, u64)>)
    ensures
        match r {
            Some(sr) => spec_allowed_type(p.p_type) && p.p_lba * sector_size + p.p_size
                * sector_size <= u64::MAX && sr.0 == p.p_lba * sector_size && sr.1 == p.p_size
                * sector_size,
            None => !spec_allowed_type(p.p_type) || p.p_lba * sector_size + p.p_size * sector_size
                > u64::MAX,
        },
{
    if !(p.p_type == 0x0b || p.p_type == 0xef) {
        return None;
    }
    proof {
        assert(p.p_lba * sector_size <= 0xFFFF_FFFFu64 * 0xFFFF_FFFF_FFFF_FFFFu64)
            by (nonlinear_arith)
            requires
                p.p_lba <= 0xFFFF_FFFFu64,
                sector_size <= 0xFFFF_FFFF_FFFF_FFFFu64,
        ;
        assert(p.p_size * sector_size <= 0xFFFF_FFFFu64 * 0xFFFF_FFFF_FFFF_FFFFu64)
            by (nonlinear_arith)
            requires
                p.p_size <= 0xFFFF_FFFFu64,
                sector_size <= 0xFFFF_FFFF_FFFF_FFFFu64,
        ;
    }
    let start: u128 = p.p_lba as u128 * sector_size as u128;
    let size: u128 = p.p_size as u128 * sector_size as u128;
    if start + size > u64::MAX as u128 {
        return None;
    }
    Some((start as u64, size as u64))
}

/// What probing one table slot produced: either the mount failed (or was
/// never attempted, for a slot whose type is not allow-listed), or it
/// succeeded and yielded the volume label's bytes.
pub enum ProbeResult {
    NotMounted,
    Mounted(Vec<u8>),
}

/// Whether slot `k` is accepted: its type is allow-listed, its filesystem
/// mounted, and the case-normalized label contains the identifying
/// substring.
pub open spec fn spec_accepts(parts: Seq<Partition>, probes: Seq<ProbeResult>, k: int) -> bool {
    &&& spec_allowed_type(parts[k].p_type)
    &&& probes[k] matches ProbeResult::Mounted(l) && spec_label_matches(l@)
}

/// The first accepted slot at or after `k`, in table order.
pub open spec fn spec_locate_from(
    parts: Seq<Partition>,
    probes: Seq<ProbeResult>,
    k: int,
) -> Option<int>
    decreases parts.len() - k,
{
    if k < 0 || k >= parts.len() {
        None
    } else if spec_accepts(parts, probes, k) {
        Some(k)
    } else {
        spec_locate_from(parts, probes, k + 1)
    }
}

/// The first accepted slot, in table order, if any.
pub open spec fn spec_locate(parts: Seq<Partition>, probes: Seq<ProbeResult>) -> Option<int> {
    spec_locate_from(parts, probes, 0)
}

/// Select the boot volume: the first slot in table order whose type is
/// allow-listed, whose filesystem mounted, and whose case-normalized label
/// contains the identifying substring. A slot that failed to mount is
/// rejected without failing the scan; only exhausting every slot without a
/// match fails, with `NoBootVolume`.
pub fn locate_boot_partition(parts: &Vec<Partition>, probes: &Vec<ProbeResult>) -> (r: Result<
    usize,
    AppError,
>)
    requires
        parts@.len() == probes@.len(),
    ensures
        match r {
            Ok(k) => spec_locate(parts@, probes@) == Some(k as int),
            Err(e) => (e matches AppError::NoBootVolume) && spec_locate(parts@, probes@) is None,
        },
{
    let mut i: usize = 0;
    while i < parts.len()
        invariant
            parts@.len() == probes@.len(),
            i <= parts@.len(),
            spec_locate(parts@, probes@) == spec_locate_from(parts@, probes@, i as int),
        decreases parts@.len() - i,
    {
        let p = &parts[i];
        if p.p_type == 0x0b || p.p_type == 0xef {
            let accepted: bool = match &probes[i] {
                ProbeResult::Mounted(l) => label_matches(l),
                ProbeResult::NotMounted => false,
            };
            if accepted {
                return Ok(i);
            }
        }
        i = i + 1;
    }
    Err(AppError::NoBootVolume)
}

/// When exactly one slot is accepted, the scan returns exactly that slot.
pub proof fn lemma_locate_unique(parts: Seq<Partition>, probes: Seq<ProbeResult>, k: int)
    requires
        parts.len() == probes.len(),
        0 <= k < parts.len(),
        spec_accepts(parts, probes, k),
        forall|j: int| 0 <= j < parts.len() && j != k ==> !spec_accepts(parts, probes, j),
    ensures
        spec_locate(parts, probes) == Some(k),
{
    lemma_locate_from_reaches(parts, probes, 0, k);
}

proof fn lemma_locate_from_reaches(parts: Seq<Partition>, probes: Seq<ProbeResult>, m: int, k: int)
    requires
        parts.len() == probes.len(),
        0 <= m <= k < parts.len(),
        spec_accepts(parts, probes, k),
        forall|j: int| m <= j < k ==> !spec_accepts(parts, probes, j),
    ensures
        spec_locate_from(parts, probes, m) == Some(k),
    decreases k - m,
{
    if m < k {
        lemma_locate_from_reaches(parts, probes, m + 1, k);
    }
}

/// When no slot is accepted, the scan comes up empty.
pub proof fn lemma_locate_none(parts: Seq<Partition>, probes: Seq<ProbeResult>)
    requires
        parts.len() == probes.len(),
        forall|j: int| 0 <= j < parts.len() ==> !spec_accepts(parts, probes, j),
    ensures
        spec_locate(parts, probes) is None,
{
    lemma_locate_from_none(parts, probes, 0);
}

proof fn lemma_locate_from_none(parts: Seq<Partition>, probes: Seq<ProbeResult>, m: int)
    requires
        parts.len() == probes.len(),
        0 <= m,
        forall|j: int| m <= j < parts.len() ==> !spec_accepts(parts, probes, j),
    ensures
        spec_locate_from(parts, probes, m) is None,
    decreases parts.len() - m,
{
    if m < parts.len() {
        lemma_locate_from_none(parts, probes, m + 1);
    }
}

} // verus!
