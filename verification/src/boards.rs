use vstd::prelude::*;
use vstd::string::StrSliceExecFns;

use crate::apperror::AppError;

verus! {

broadcast use vstd::seq_lib::group_to_multiset_ensures;

/// One supported target board, as the board manifest describes it.
#[derive(Debug, Clone)]
pub struct Board {
    pub arch: String,
    pub id: String,
    pub soc: String,
    pub name: String,
    pub files: Vec<String>,
}

impl PartialEq for Board {
    /// Two boards are the same board when their ids agree.
    fn eq(&self, other: &Self) -> (r: bool) {
        self.id == other.id
    }
}

impl vstd::std_specs::cmp::PartialEqSpecImpl for Board {
    open spec fn obeys_eq_spec() -> bool {
        true
    }

    open spec fn eq_spec(&self, other: &Self) -> bool {
        self.id@ == other.id@
    }
}

/// Lexicographic order on character sequences, by code point.
pub open spec fn chars_le(a: Seq<char>, b: Seq<char>) -> bool
    decreases a.len(),
{
    if a.len() == 0 {
        true
    } else if b.len() == 0 {
        false
    } else if (a[0] as u32) < (b[0] as u32) {
        true
    } else if (b[0] as u32) < (a[0] as u32) {
        false
    } else {
        chars_le(a.drop_first(), b.drop_first())
    }
}

/// The order is total.
pub proof fn lemma_chars_le_total(a: Seq<char>, b: Seq<char>)
    ensures
        chars_le(a, b) || chars_le(b, a),
    decreases a.len(),
{
    if a.len() > 0 && b.len() > 0 && a[0] as u32 == b[0] as u32 {
        lemma_chars_le_total(a.drop_first(), b.drop_first());
    }
}

/// The order is transitive.
pub proof fn lemma_chars_le_trans(a: Seq<char>, b: Seq<char>, c: Seq<char>)
    requires
        chars_le(a, b),
        chars_le(b, c),
    ensures
        chars_le(a, c),
    decreases a.len(),
{
    if a.len() > 0 && b.len() > 0 && c.len() > 0 && a[0] as u32 == b[0] as u32 && b[0] as u32
        == c[0] as u32 {
        lemma_chars_le_trans(a.drop_first(), b.drop_first(), c.drop_first());
    }
}

proof fn lemma_chars_le_skip(a: Seq<char>, b: Seq<char>, i: int)
    requires
        0 <= i <= a.len(),
        i <= b.len(),
        forall|j: int| 0 <= j < i ==> a[j] as u32 == b[j] as u32,
    ensures
        chars_le(a, b) == chars_le(a.skip(i), b.skip(i)),
    decreases i,
{
    if i > 0 {
        let a1 = a.drop_first();
        let b1 = b.drop_first();
        assert(forall|j: int| 0 <= j < i - 1 ==> a1[j] as u32 == b[j + 1] as u32);
        lemma_chars_le_skip(a1, b1, i - 1);
        assert(a.skip(i) =~= a1.skip(i - 1));
        assert(b.skip(i) =~= b1.skip(i - 1));
    } else {
        assert(a.skip(0) =~= a);
        assert(b.skip(0) =~= b);
    }
}

/// Whether `a` comes at or before `b` in lexicographic code-point order.
pub fn str_le(a: &str, b: &str) -> (r: bool)
    ensures
        r == chars_le(a@, b@),
{
    let la: usize = a.unicode_len();
    let lb: usize = b.unicode_len();
    let m: usize = if la <= lb {
        la
    } else {
        lb
    };
    let mut i: usize = 0;
    while i < m
        invariant
            la == a@.len(),
            lb == b@.len(),
            m <= la,
            m <= lb,
            i <= m,
            forall|j: int| 0 <= j < i ==> a@[j] as u32 == b@[j] as u32,
        decreases m - i,
    {
        let ca = a.get_char(i);
        let cb = b.get_char(i);
        if ca as u32 != cb as u32 {
            proof {
                lemma_chars_le_skip(a@, b@, i as int);
                assert(a@.skip(i as int)[0] == ca);
                assert(b@.skip(i as int)[0] == cb);
            }
            return (ca as u32) < (cb as u32);
        }
        i = i + 1;
    }
    proof {
        lemma_chars_le_skip(a@, b@, m as int);
        if la <= lb {
            assert(a@.skip(m as int).len() == 0);
        } else {
            assert(b@.skip(m as int).len() == 0);
            assert(a@.skip(m as int).len() > 0);
        }
    }
    la <= lb
}

/// Whether a list of strings is sorted by contents.
pub open spec fn strings_sorted(s: Seq<String>) -> bool {
    forall|i: int, j: int| 0 <= i < j < s.len() ==> chars_le(#[trigger] s[i]@, #[trigger] s[j]@)
}

/// Whether a list of boards is sorted by id.
pub open spec fn boards_sorted_by_id(s: Seq<Board>) -> bool {
    forall|i: int, j: int|
        0 <= i < j < s.len() ==> chars_le(#[trigger] s[i].id@, #[trigger] s[j].id@)
}

fn min_string_index(v: &Vec<String>) -> (mi: usize)
    requires
        v@.len() > 0,
    ensures
        mi < v@.len(),
        forall|k: int| 0 <= k < v@.len() ==> chars_le(v@[mi as int]@, v@[k]@),
{
    let mut mi: usize = 0;
    let mut j: usize = 1;
    proof {
        lemma_chars_le_total(v@[0]@, v@[0]@);
    }
    while j < v.len()
        invariant
            mi < v@.len(),
            j <= v@.len(),
            forall|k: int| 0 <= k < j ==> chars_le(v@[mi as int]@, v@[k]@),
        decreases v@.len() - j,
    {
        if str_le(v[j].as_str(), v[mi].as_str()) {
            proof {
                assert forall|k: int| 0 <= k < j implies chars_le(v@[j as int]@, v@[k]@) by {
                    lemma_chars_le_trans(v@[j as int]@, v@[mi as int]@, v@[k]@);
                }
                lemma_chars_le_total(v@[j as int]@, v@[j as int]@);
            }
            mi = j;
        } else {
            proof {
                lemma_chars_le_total(v@[j as int]@, v@[mi as int]@);
            }
        }
        j = j + 1;
    }
    mi
}

fn sort_strings(v: Vec<String>) -> (r: Vec<String>)
    ensures
        r@.to_multiset() == v@.to_multiset(),
        strings_sorted(r@),
{
    let mut rest = v;
    let mut out: Vec<String> = Vec::new();
    while rest.len() > 0
        invariant
            out@.to_multiset().add(rest@.to_multiset()) == v@.to_multiset(),
            strings_sorted(out@),
            forall|i: int, j: int|
                0 <= i < out@.len() && 0 <= j < rest@.len() ==> chars_le(
                    #[trigger] out@[i]@,
                    #[trigger] rest@[j]@,
                ),
        decreases rest@.len(),
    {
        let mi = min_string_index(&rest);
        let ghost oldrest = rest@;
        let ghost oldout = out@;
        let x = rest.remove(mi);
        out.push(x);
        proof {
            assert(oldrest.contains(oldrest[mi as int]));
            assert(out@.to_multiset() =~= oldout.to_multiset().insert(oldrest[mi as int]));
            assert(rest@.to_multiset() =~= oldrest.to_multiset().remove(oldrest[mi as int]));
            assert(out@.to_multiset().add(rest@.to_multiset()) =~= oldout.to_multiset().add(
                oldrest.to_multiset(),
            ));
            assert(forall|j: int|
                0 <= j < rest@.len() ==> #[trigger] rest@[j] == if j < mi {
                    oldrest[j]
                } else {
                    oldrest[j + 1]
                });
        }
    }
    out
}

fn min_board_index(v: &Vec<Board>) -> (mi: usize)
    requires
        v@.len() > 0,
    ensures
        mi < v@.len(),
        forall|k: int| 0 <= k < v@.len() ==> chars_le(v@[mi as int].id@, v@[k].id@),
{
    let mut mi: usize = 0;
    let mut j: usize = 1;
    proof {
        lemma_chars_le_total(v@[0].id@, v@[0].id@);
    }
    while j < v.len()
        invariant
            mi < v@.len(),
            j <= v@.len(),
            forall|k: int| 0 <= k < j ==> chars_le(v@[mi as int].id@, v@[k].id@),
        decreases v@.len() - j,
    {
        if str_le(v[j].id.as_str(), v[mi].id.as_str()) {
            proof {
                assert forall|k: int| 0 <= k < j implies chars_le(v@[j as int].id@, v@[k].id@) by {
                    lemma_chars_le_trans(v@[j as int].id@, v@[mi as int].id@, v@[k].id@);
                }
                lemma_chars_le_total(v@[j as int].id@, v@[j as int].id@);
            }
            mi = j;
        } else {
            proof {
                lemma_chars_le_total(v@[j as int].id@, v@[mi as int].id@);
            }
        }
        j = j + 1;
    }
    mi
}

fn sort_boards(v: Vec<Board>) -> (r: Vec<Board>)
    ensures
        r@.to_multiset() == v@.to_multiset(),
        boards_sorted_by_id(r@),
{
    let mut rest = v;
    let mut out: Vec<Board> = Vec::new();
    while rest.len() > 0
        invariant
            out@.to_multiset().add(rest@.to_multiset()) == v@.to_multiset(),
            boards_sorted_by_id(out@),
            forall|i: int, j: int|
                0 <= i < out@.len() && 0 <= j < rest@.len() ==> chars_le(
                    #[trigger] out@[i].id@,
                    #[trigger] rest@[j].id@,
                ),
        decreases rest@.len(),
    {
        let mi = min_board_index(&rest);
        let ghost oldrest = rest@;
        let ghost oldout = out@;
        let x = rest.remove(mi);
        out.push(x);
        proof {
            assert(oldrest.contains(oldrest[mi as int]));
            assert(out@.to_multiset() =~= oldout.to_multiset().insert(oldrest[mi as int]));
            assert(rest@.to_multiset() =~= oldrest.to_multiset().remove(oldrest[mi as int]));
            assert(out@.to_multiset().add(rest@.to_multiset()) =~= oldout.to_multiset().add(
                oldrest.to_multiset(),
            ));
            assert(forall|j: int|
                0 <= j < rest@.len() ==> #[trigger] rest@[j] == if j < mi {
                    oldrest[j]
                } else {
                    oldrest[j + 1]
                });
        }
    }
    out
}

/// The boards of `bs` whose architecture is `arch`, in list order.
pub open spec fn arch_filter(bs: Seq<Board>, arch: Seq<char>) -> Seq<Board>
    decreases bs.len(),
{
    if bs.len() == 0 {
        Seq::empty()
    } else {
        let rest = arch_filter(bs.drop_last(), arch);
        if bs.last().arch@ == arch {
            rest.push(bs.last())
        } else {
            rest
        }
    }
}

/// The first board of `bs` at or after `k` whose id is `id`.
pub open spec fn spec_find_board(bs: Seq<Board>, id: Seq<char>, k: int) -> Option<int>
    decreases bs.len() - k,
{
    if k < 0 || k >= bs.len() {
        None
    } else if bs[k].id@ == id {
        Some(k)
    } else {
        spec_find_board(bs, id, k + 1)
    }
}

#[verifier::rlimit(100)]
proof fn lemma_permutation_view_sets(a: Seq<String>, s: Seq<String>)
    requires
        a.to_multiset() == s.to_multiset(),
        forall|i: int, j: int| 0 <= i < j < a.len() ==> a[i]@ != a[j]@,
    ensures
        forall|i: int, j: int| 0 <= i < j < s.len() ==> s[i]@ != s[j]@,
        forall|i: int| 0 <= i < s.len() ==> a.contains(#[trigger] s[i]),
        forall|k: int| 0 <= k < a.len() ==> s.contains(#[trigger] a[k]),
{
    assert forall|i: int| 0 <= i < s.len() implies a.contains(#[trigger] s[i]) by {
        assert(s.contains(s[i]));
        assert(s.to_multiset().count(s[i]) > 0);
        assert(a.to_multiset().count(s[i]) > 0);
    }
    assert forall|k: int| 0 <= k < a.len() implies s.contains(#[trigger] a[k]) by {
        assert(a.contains(a[k]));
        assert(a.to_multiset().count(a[k]) > 0);
        assert(s.to_multiset().count(a[k]) > 0);
    }
    assert(a.no_duplicates()) by {
        assert forall|i: int, j: int|
            0 <= i < a.len() && 0 <= j < a.len() && i != j implies a[i] != a[j] by {
            if i < j {
                assert(a[i]@ != a[j]@);
            } else {
                assert(a[j]@ != a[i]@);
            }
        }
    }
    a.lemma_multiset_has_no_duplicates();
    s.lemma_multiset_has_no_duplicates_conv();
    assert forall|i: int, j: int| 0 <= i < j < s.len() implies s[i]@ != s[j]@ by {
        if s[i]@ == s[j]@ {
            assert(s.no_duplicates());
            assert(s[i] != s[j]);
            assert(a.contains(s[i]));
            let m1 = choose|m1: int| 0 <= m1 < a.len() && a[m1] == s[i];
            assert(a.contains(s[j]));
            let m2 = choose|m2: int| 0 <= m2 < a.len() && a[m2] == s[j];
            assert(a[m1]@ == a[m2]@);
            assert(m1 == m2);
            assert(s[i] == s[j]);
        }
    }
}

/// The architectures of a list of boards, one view per board.
pub open spec fn arch_views(bs: Seq<Board>) -> Seq<Seq<char>> {
    bs.map_values(|b: Board| b.arch@)
}

/// The distinct architectures among `boards`, in ascending lexicographic
/// order: a sorted list without duplicates whose contents are exactly the
/// architectures that occur.
#[verifier::rlimit(100)]
pub fn get_architectures(boards: &Vec<Board>) -> (r: Vec<String>)
    ensures
        strings_sorted(r@),
        forall|i: int, j: int| 0 <= i < j < r@.len() ==> r@[i]@ != r@[j]@,
        forall|i: int| 0 <= i < r@.len() ==> arch_views(boards@).contains(#[trigger] r@[i]@),
        forall|k: int|
            0 <= k < boards@.len() ==> crate::provision::views(r@).contains(
                #[trigger] boards@[k].arch@,
            ),
{
    let mut archs: Vec<String> = Vec::new();
    let mut k: usize = 0;
    while k < boards.len()
        invariant
            k <= boards@.len(),
            forall|i: int, j: int| 0 <= i < j < archs@.len() ==> archs@[i]@ != archs@[j]@,
            forall|i: int|
                0 <= i < archs@.len() ==> arch_views(boards@).contains(#[trigger] archs@[i]@),
            forall|m: int|
                0 <= m < k ==> crate::provision::views(archs@).contains(
                    #[trigger] boards@[m].arch@,
                ),
        decreases boards@.len() - k,
    {
        let mut seen: bool = false;
        let mut i: usize = 0;
        while i < archs.len()
            invariant
                k < boards@.len(),
                i <= archs@.len(),
                seen ==> crate::provision::views(archs@).contains(boards@[k as int].arch@),
                !seen ==> forall|p: int| 0 <= p < i ==> archs@[p]@ != boards@[k as int].arch@,
            decreases archs@.len() - i,
        {
            if archs[i] == boards[k].arch {
                proof {
                    assert(crate::provision::views(archs@)[i as int] == boards@[k as int].arch@);
                }
                seen = true;
            }
            i = i + 1;
        }
        let ghost olda = archs@;
        if !seen {
            archs.push(boards[k].arch.clone());
        }
        proof {
            assert(forall|p: int| 0 <= p < olda.len() ==> archs@[p] == olda[p]);
            if !seen {
                assert(archs@[olda.len() as int]@ == boards@[k as int].arch@);
                assert(forall|p: int| 0 <= p < olda.len() ==> olda[p]@ != boards@[k as int].arch@);
            }
            assert forall|i2: int, j2: int| 0 <= i2 < j2 < archs@.len() implies archs@[i2]@
                != archs@[j2]@ by {
                if j2 < olda.len() {
                    assert(olda[i2]@ != olda[j2]@);
                }
            }
            assert forall|i2: int|
                0 <= i2 < archs@.len() implies arch_views(boards@).contains(
                #[trigger] archs@[i2]@,
            ) by {
                if i2 < olda.len() {
                    assert(arch_views(boards@).contains(olda[i2]@));
                } else {
                    assert(arch_views(boards@)[k as int] == boards@[k as int].arch@);
                    assert(arch_views(boards@).contains(boards@[k as int].arch@));
                }
            }
            assert forall|m: int|
                0 <= m < k + 1 implies crate::provision::views(archs@).contains(
                #[trigger] boards@[m].arch@,
            ) by {
                let av = crate::provision::views(archs@);
                if m < k {
                    let w = choose|w: int|
                        0 <= w < crate::provision::views(olda).len()
                            && crate::provision::views(olda)[w] == boards@[m].arch@;
                    assert(av[w] == boards@[m].arch@);
                    assert(av.contains(boards@[m].arch@));
                } else {
                    if seen {
                        let w = choose|w: int|
                            0 <= w < crate::provision::views(olda).len()
                                && crate::provision::views(olda)[w] == boards@[k as int].arch@;
                        assert(av[w] == boards@[m].arch@);
                        assert(av.contains(boards@[m].arch@));
                    } else {
                        assert(av[olda.len() as int] == boards@[m].arch@);
                        assert(av.contains(boards@[m].arch@));
                    }
                }
            }
        }
        k = k + 1;
    }
    let ghost a0 = archs@;
    let r = sort_strings(archs);
    proof {
        lemma_permutation_view_sets(a0, r@);
        assert forall|i: int|
            0 <= i < r@.len() implies arch_views(boards@).contains(#[trigger] r@[i]@) by {
            assert(a0.contains(r@[i]));
            let k2 = choose|k2: int| 0 <= k2 < a0.len() && a0[k2] == r@[i];
            assert(a0[k2]@ == r@[i]@);
            assert(arch_views(boards@).contains(a0[k2]@));
        }
        assert forall|k3: int|
            0 <= k3 < boards@.len() implies crate::provision::views(r@).contains(
            #[trigger] boards@[k3].arch@,
        ) by {
            assert(crate::provision::views(a0).contains(boards@[k3].arch@));
            let w = choose|w: int|
                0 <= w < crate::provision::views(a0).len() && crate::provision::views(a0)[w]
                    == boards@[k3].arch@;
            assert(a0[w]@ == boards@[k3].arch@);
            assert(r@.contains(a0[w]));
            let i1 = choose|i1: int| 0 <= i1 < r@.len() && r@[i1] == a0[w];
            assert(crate::provision::views(r@)[i1] == boards@[k3].arch@);
            assert(crate::provision::views(r@).contains(boards@[k3].arch@));
        }
    }
    r
}

proof fn lemma_arch_filter_members(bs: Seq<Board>, arch: Seq<char>)
    ensures
        forall|i: int|
            0 <= i < arch_filter(bs, arch).len() ==> #[trigger] arch_filter(bs, arch)[i].arch@
                == arch,
    decreases bs.len(),
{
    if bs.len() > 0 {
        lemma_arch_filter_members(bs.drop_last(), arch);
        let rest = arch_filter(bs.drop_last(), arch);
        let f = arch_filter(bs, arch);
        assert forall|i: int| 0 <= i < f.len() implies #[trigger] f[i].arch@ == arch by {
            if i < rest.len() {
                assert(f[i] == rest[i]);
            } else {
                assert(f[i] == bs.last());
            }
        }
    }
}

/// The boards whose architecture is `arch`: the same boards, each exactly
/// as often as it occurs in the input's filtered form, all carrying that
/// architecture, sorted by id.
pub fn get_arch(boards: Vec<Board>, arch: &String) -> (r: Vec<Board>)
    ensures
        r@.to_multiset() == arch_filter(boards@, arch@).to_multiset(),
        boards_sorted_by_id(r@),
        forall|i: int| 0 <= i < r@.len() ==> #[trigger] r@[i].arch@ == arch@,
{
    let ghost orig = boards@;
    let mut rest = boards;
    let n: usize = rest.len();
    let mut picked: Vec<Board> = Vec::new();
    let mut k: usize = 0;
    while rest.len() > 0
        invariant
            n == orig.len(),
            k + rest@.len() == orig.len(),
            rest@ == orig.skip(k as int),
            picked@ == arch_filter(orig.subrange(0, k as int), arch@),
        decreases rest@.len(),
    {
        let ghost prefix = orig.subrange(0, k as int);
        let ghost prefix1 = orig.subrange(0, k + 1);
        proof {
            assert(prefix1.drop_last() =~= prefix);
            assert(prefix1.last() == orig[k as int]);
            assert(rest@[0] == orig[k as int]);
        }
        let b = rest.remove(0);
        if b.arch == *arch {
            picked.push(b);
        }
        proof {
            assert(rest@ =~= orig.skip(k + 1));
        }
        k = k + 1;
    }
    proof {
        assert(orig.subrange(0, k as int) =~= orig);
    }
    let r = sort_boards(picked);
    proof {
        lemma_arch_filter_members(orig, arch@);
        let filtered = arch_filter(orig, arch@);
        assert forall|i: int| 0 <= i < r@.len() implies #[trigger] r@[i].arch@ == arch@ by {
            assert(r@.contains(r@[i]));
            assert(r@.to_multiset().count(r@[i]) > 0);
            assert(filtered.to_multiset().count(r@[i]) > 0);
            assert(filtered.contains(r@[i]));
            let w = choose|w: int| 0 <= w < filtered.len() && filtered[w] == r@[i];
            assert(filtered[w].arch@ == arch@);
        }
    }
    r
}

/// The first board whose id is `board_id`, in list order, or `NotFound`
/// exactly when no board carries that id.
#[verifier::loop_isolation(false)]
pub fn get_board(boards: Vec<Board>, board_id: &String) -> (r: Result<Board, AppError>)
    ensures
        match r {
            Ok(b) => spec_find_board(boards@, board_id@, 0) matches Some(k) && b == boards@[k],
            Err(e) => (e matches AppError::NotFound) && spec_find_board(boards@, board_id@, 0)
                is None,
        },
{
    let ghost orig = boards@;
    let mut bs = boards;
    let n: usize = bs.len();
    let mut i: usize = 0;
    while i < n
        invariant
            bs@ == orig,
            n == orig.len(),
            i <= n,
            forall|j: int| 0 <= j < i ==> orig[j].id@ != board_id@,
        decreases n - i,
    {
        if bs[i].id == *board_id {
            let b = bs.remove(i);
            proof {
                lemma_find_board_reaches(orig, board_id@, 0, i as int);
            }
            return Ok(b);
        }
        i = i + 1;
    }
    proof {
        lemma_find_board_none(orig, board_id@, 0);
    }
    Err(AppError::NotFound)
}

proof fn lemma_find_board_reaches(bs: Seq<Board>, id: Seq<char>, m: int, k: int)
    requires
        0 <= m <= k < bs.len(),
        bs[k].id@ == id,
        forall|j: int| m <= j < k ==> bs[j].id@ != id,
    ensures
        spec_find_board(bs, id, m) == Some(k),
    decreases k - m,
{
    if m < k {
        lemma_find_board_reaches(bs, id, m + 1, k);
    }
}

proof fn lemma_find_board_none(bs: Seq<Board>, id: Seq<char>, m: int)
    requires
        0 <= m,
        forall|j: int| m <= j < bs.len() ==> bs[j].id@ != id,
    ensures
        spec_find_board(bs, id, m) is None,
    decreases bs.len() - m,
{
    if m < bs.len() {
        lemma_find_board_none(bs, id, m + 1);
    }
}

} // verus!
