use vstd::prelude::*;
use vstd::string::StrSliceExecFns;

use crate::apperror::AppError;

verus! {

/// Whether `c` is an ASCII decimal digit.
pub open spec fn is_digit(c: char) -> bool {
    48 <= c as u32 <= 57
}

/// The decimal value of a digit character.
pub open spec fn digit_val(c: char) -> int {
    c as u32 - 48
}

/// The decimal value that a run of digit characters denotes.
pub open spec fn digits_val(s: Seq<char>) -> int
    decreases s.len(),
{
    if s.len() == 0 {
        0
    } else {
        digits_val(s.drop_last()) * 10 + digit_val(s.last())
    }
}

/// The length of the longest digit-only prefix of `s`.
pub open spec fn digit_prefix_len(s: Seq<char>) -> int
    decreases s.len(),
{
    if s.len() == 0 {
        0
    } else if !is_digit(s[0]) {
        0
    } else {
        1 + digit_prefix_len(s.drop_first())
    }
}

/// Whether `s` matches the raw artifact form: one or more digits, a comma,
/// and a nonempty remainder.
pub open spec fn is_raw_form(s: Seq<char>) -> bool {
    let i = digit_prefix_len(s);
    1 <= i && i + 1 < s.len() && s[i] == ','
}

/// The decimal offset a raw-form specification denotes (which may exceed
/// what a 64-bit offset can hold).
pub open spec fn raw_offset_val(s: Seq<char>) -> int {
    digits_val(s.subrange(0, digit_prefix_len(s)))
}

/// The source part of a raw-form specification: everything after the comma.
pub open spec fn raw_source(s: Seq<char>) -> Seq<char> {
    s.subrange(digit_prefix_len(s) + 1, s.len() as int)
}

/// One firmware artifact to place: either raw bytes at a literal absolute
/// device offset, or a file at the boot volume's filesystem root.
#[derive(Debug)]
pub enum ProvisioningArtifact {
    Raw { offset: u64, source: String },
    FsRelative { path: String },
}

proof fn lemma_digit_prefix_len_bounds(s: Seq<char>)
    ensures
        0 <= digit_prefix_len(s) <= s.len(),
        forall|j: int| 0 <= j < digit_prefix_len(s) ==> is_digit(s[j]),
        digit_prefix_len(s) < s.len() ==> !is_digit(s[digit_prefix_len(s)]),
    decreases s.len(),
{
    if s.len() > 0 && is_digit(s[0]) {
        let t = s.drop_first();
        lemma_digit_prefix_len_bounds(t);
        assert forall|j: int| 0 <= j < digit_prefix_len(s) implies is_digit(s[j]) by {
            if j > 0 {
                assert(s[j] == t[j - 1]);
            }
        }
    }
}

proof fn lemma_digit_prefix_len_is(s: Seq<char>, i: int)
    requires
        0 <= i <= s.len(),
        forall|j: int| 0 <= j < i ==> is_digit(s[j]),
        i < s.len() ==> !is_digit(s[i]),
    ensures
        digit_prefix_len(s) == i,
    decreases s.len(),
{
    if s.len() == 0 {
    } else if !is_digit(s[0]) {
        assert(i == 0);
    } else {
        assert(i >= 1);
        let t = s.drop_first();
        assert(forall|j: int| 0 <= j < i - 1 ==> is_digit(t[j]));
        lemma_digit_prefix_len_is(t, i - 1);
    }
}

proof fn lemma_digits_val_nonneg(s: Seq<char>)
    requires
        forall|j: int| 0 <= j < s.len() ==> is_digit(s[j]),
    ensures
        digits_val(s) >= 0,
    decreases s.len(),
{
    if s.len() > 0 {
        lemma_digits_val_nonneg(s.drop_last());
    }
}

proof fn lemma_digits_val_extend(s: Seq<char>, m: int)
    requires
        forall|j: int| 0 <= j < s.len() ==> is_digit(s[j]),
        0 <= m <= s.len(),
    ensures
        digits_val(s) >= digits_val(s.subrange(0, m)),
    decreases s.len() - m,
{
    if m < s.len() {
        let p = s.subrange(0, m);
        let q = s.subrange(0, m + 1);
        assert(q.drop_last() =~= p);
        assert(q.last() == s[m]);
        lemma_digits_val_nonneg(p);
        lemma_digits_val_extend(s, m + 1);
    } else {
        assert(s.subrange(0, m) =~= s);
    }
}

/// Whether `c` is an ASCII decimal digit.
fn digit_char(c: char) -> (r: bool)
    ensures
        r == is_digit(c),
{
    let u: u32 = c as u32;
    48 <= u && u <= 57
}

/// The length of the longest digit-only prefix of `s`.
fn digit_prefix_end(s: &str) -> (i: usize)
    ensures
        i == digit_prefix_len(s@),
{
    let n: usize = s.unicode_len();
    let mut i: usize = 0;
    while i < n && digit_char(s.get_char(i))
        invariant
            n == s@.len(),
            i <= n,
            forall|j: int| 0 <= j < i ==> is_digit(s@[j]),
        decreases n - i,
    {
        i = i + 1;
    }
    proof {
        lemma_digit_prefix_len_is(s@, i as int);
    }
    i
}

/// Classify one artifact specification, as a single up-front step.
///
/// A string of one or more digits, a comma, and a nonempty remainder is a
/// raw artifact at the decimal offset the digits denote; every other string
/// is filesystem-relative. A string that matches the raw form but whose
/// offset does not fit in 64 bits is neither, and is rejected with
/// `UnrecognizedArtifact`.
pub fn classify(s: &String) -> (r: Result<ProvisioningArtifact, AppError>)
    ensures
        match r {
            Ok(a) => match a {
                ProvisioningArtifact::Raw { offset, source } => is_raw_form(s@) && raw_offset_val(
                    s@,
                ) <= u64::MAX && offset == raw_offset_val(s@) && source@ == raw_source(s@),
                ProvisioningArtifact::FsRelative { path } => !is_raw_form(s@) && path@ == s@,
            },
            Err(e) => is_raw_form(s@) && raw_offset_val(s@) > u64::MAX && e matches
                AppError::UnrecognizedArtifact,
        },
{
    let st: &str = s.as_str();
    let n: usize = st.unicode_len();
    let i: usize = digit_prefix_end(st);
    proof {
        lemma_digit_prefix_len_bounds(s@);
    }
    let mut raw: bool = false;
    if 1 <= i && i < n && n - i >= 2 {
        if st.get_char(i) == ',' {
            raw = true;
        }
    }
    if !raw {
        return Ok(ProvisioningArtifact::FsRelative { path: s.clone() });
    }
    let ghost prefix = s@.subrange(0, i as int);
    let mut acc: u64 = 0;
    let mut k: usize = 0;
    while k < i
        invariant
            st@ == s@,
            is_raw_form(s@),
            prefix == s@.subrange(0, i as int),
            k <= i,
            i < n,
            n == s@.len(),
            i == digit_prefix_len(s@),
            forall|j: int| 0 <= j < i ==> is_digit(s@[j]),
            acc == digits_val(s@.subrange(0, k as int)),
        decreases i - k,
    {
        let c = st.get_char(k);
        let d: u64 = (c as u32 - 48) as u64;
        proof {
            let p = s@.subrange(0, k as int);
            let q = s@.subrange(0, k + 1);
            assert(q.drop_last() =~= p);
            assert(q.last() == s@[k as int]);
        }
        if acc > 1844674407370955161u64 || (acc == 1844674407370955161u64 && d > 5) {
            proof {
                assert(forall|j: int| 0 <= j < prefix.len() ==> prefix[j] == s@[j]);
                lemma_digits_val_extend(prefix, k + 1);
                assert(prefix.subrange(0, k + 1) =~= s@.subrange(0, k + 1));
                assert(digits_val(s@.subrange(0, k + 1)) == acc * 10 + d);
                assert(digits_val(prefix) >= acc * 10 + d);
                assert(raw_offset_val(s@) > u64::MAX);
            }
            return Err(AppError::UnrecognizedArtifact);
        }
        acc = acc * 10 + d;
        k = k + 1;
    }
    proof {
        assert(s@.subrange(0, i as int) == prefix);
    }
    let src: &str = st.substring_char(i + 1, n);
    let source: String = src.to_owned();
    Ok(ProvisioningArtifact::Raw { offset: acc, source })
}

/// The final path segment of `s` read as an absolute URL: `None` when `s`
/// is not an absolute URL or is a cannot-be-a-base URL without segments.
pub uninterp spec fn url_last_segment(s: Seq<char>) -> Option<Seq<char>>;

/// Relies on `url::Url::parse` and `url::Url::path_segments`: parsing is a
/// deterministic function of the string alone; `path_segments` returns
/// `None` exactly for cannot-be-a-base URLs and otherwise an iterator over
/// at least one segment, so the last segment exists.
#[verifier::external_body]
fn url_file_name(s: &String) -> (r: Option<String>)
    ensures
        r is Some <==> url_last_segment(s@) is Some,
        r matches Some(n) ==> url_last_segment(s@) == Some(n@),
{
    match url::Url::parse(s) {
        Ok(u) => match u.path_segments() {
            Some(segs) => segs.last().map(|x| x.to_string()),
            None => None,
        },
        Err(_) => None,
    }
}

/// One raw write the planner decided on: fetch `source` and write its bytes
/// at absolute device offset `offset`; `filename` is the source's final
/// path segment.
#[derive(Debug)]
pub struct RawWrite {
    pub offset: u64,
    pub source: String,
    pub filename: String,
}

/// One filesystem placement the planner decided on: `filename` at the
/// volume root, fetched from `source`; `present` says the file already
/// exists and is skipped.
#[derive(Debug)]
pub struct FsPlacement {
    pub filename: String,
    pub source: String,
    pub present: bool,
}

/// Count of filesystem artifacts written vs skipped (already present).
#[derive(Clone, Copy, PartialEq, Eq, Structural, Debug)]
pub struct ProvisioningResult {
    pub written: usize,
    pub skipped: usize,
}

/// The filesystem placements for one artifact list, with their counts.
#[derive(Debug)]
pub struct PlacePlan {
    pub actions: Vec<FsPlacement>,
    pub result: ProvisioningResult,
}

/// The views of a list of strings.
pub open spec fn views(files: Seq<String>) -> Seq<Seq<char>> {
    files.map_values(|s: String| s@)
}

/// Why the raw pass rejects artifact `s`, if it does: a raw form whose
/// offset does not fit 64 bits, or a raw form whose source is not a URL
/// with a final path segment.
pub open spec fn raw_file_error(s: Seq<char>) -> Option<AppError> {
    if is_raw_form(s) {
        if raw_offset_val(s) > u64::MAX {
            Some(AppError::UnrecognizedArtifact)
        } else if url_last_segment(raw_source(s)) is None {
            Some(AppError::InvalidUrl)
        } else {
            None
        }
    } else {
        None
    }
}

/// The first error of the raw pass at or after `k`, in list order.
pub open spec fn first_raw_error(ss: Seq<Seq<char>>, k: int) -> Option<AppError>
    decreases ss.len() - k,
{
    if k < 0 || k >= ss.len() {
        None
    } else if raw_file_error(ss[k]) is Some {
        raw_file_error(ss[k])
    } else {
        first_raw_error(ss, k + 1)
    }
}

/// The raw writes an artifact list asks for, in list order.
pub open spec fn raw_plan_spec(ss: Seq<Seq<char>>) -> Seq<(int, Seq<char>)>
    decreases ss.len(),
{
    if ss.len() == 0 {
        Seq::empty()
    } else {
        let rest = raw_plan_spec(ss.drop_last());
        if is_raw_form(ss.last()) {
            rest.push((raw_offset_val(ss.last()), raw_source(ss.last())))
        } else {
            rest
        }
    }
}

proof fn lemma_first_raw_error_step(ss: Seq<Seq<char>>, j: int, m: int)
    requires
        0 <= j <= m <= ss.len(),
        forall|k: int| j <= k < m ==> raw_file_error(ss[k]) is None,
    ensures
        first_raw_error(ss, j) == first_raw_error(ss, m),
    decreases m - j,
{
    if j < m {
        lemma_first_raw_error_step(ss, j + 1, m);
    }
}

/// Decide the raw pass of provisioning: which artifacts go directly onto
/// the device, at which absolute offsets, in list order.
///
/// Filesystem-relative artifacts are passed over. The pass is fail-fast:
/// the first offending artifact aborts it with that artifact's error, and
/// an empty list is rejected with `NoFiles`. On success, every raw entry
/// appears with its offset, its source, and the source's final path
/// segment, in list order.
pub fn write_files(files: &Vec<String>) -> (r: Result<Vec<RawWrite>, AppError>)
    ensures
        files@.len() == 0 ==> (r matches Err(e) && e matches AppError::NoFiles),
        files@.len() > 0 ==> match r {
            Ok(v) => {
                &&& first_raw_error(views(files@), 0) is None
                &&& v@.map_values(|w: RawWrite| (w.offset as int, w.source@)) == raw_plan_spec(
                    views(files@),
                )
                &&& forall|k: int|
                    0 <= k < v@.len() ==> url_last_segment(v@[k].source@) == Some(v@[k].filename@)
            },
            Err(e) => first_raw_error(views(files@), 0) == Some(e),
        },
{
    if files.len() == 0 {
        return Err(AppError::NoFiles);
    }
    let ghost ss = views(files@);
    let mut plan: Vec<RawWrite> = Vec::new();
    let mut idx: usize = 0;
    while idx < files.len()
        invariant
            ss == views(files@),
            idx <= files@.len(),
            forall|k: int| 0 <= k < idx ==> raw_file_error(ss[k]) is None,
            plan@.map_values(|w: RawWrite| (w.offset as int, w.source@)) == raw_plan_spec(
                ss.subrange(0, idx as int),
            ),
            forall|k: int|
                0 <= k < plan@.len() ==> url_last_segment(plan@[k].source@) == Some(
                    plan@[k].filename@,
                ),
        decreases files@.len() - idx,
    {
        let ghost prefix = ss.subrange(0, idx as int);
        let ghost prefix1 = ss.subrange(0, idx + 1);
        proof {
            assert(prefix1.drop_last() =~= prefix);
            assert(prefix1.last() == ss[idx as int]);
        }
        let s = &files[idx];
        match classify(s) {
            Err(e) => {
                proof {
                    lemma_first_raw_error_step(ss, 0, idx as int);
                }
                return Err(e);
            },
            Ok(ProvisioningArtifact::FsRelative { path: _ }) => {
            },
            Ok(ProvisioningArtifact::Raw { offset, source }) => {
                match url_file_name(&source) {
                    None => {
                        proof {
                            assert(raw_file_error(ss[idx as int]) == Some(AppError::InvalidUrl));
                            lemma_first_raw_error_step(ss, 0, idx as int);
                        }
                        return Err(AppError::InvalidUrl);
                    },
                    Some(filename) => {
                        let ghost oldmapped = plan@.map_values(
                            |w: RawWrite| (w.offset as int, w.source@),
                        );
                        plan.push(RawWrite { offset, source, filename });
                        proof {
                            assert(plan@.map_values(|w: RawWrite| (w.offset as int, w.source@))
                                =~= oldmapped.push(
                                (plan@.last().offset as int, plan@.last().source@),
                            ));
                        }
                    },
                }
            },
        }
        idx = idx + 1;
    }
    proof {
        assert(ss.subrange(0, idx as int) =~= ss);
        lemma_first_raw_error_step(ss, 0, ss.len() as int);
    }
    Ok(plan)
}

/// Why the filesystem pass rejects artifact `s`, if it does: a
/// filesystem-relative artifact that is not a URL with a final path
/// segment. Raw-form artifacts are passed over without a check.
pub open spec fn fs_file_error(s: Seq<char>) -> Option<AppError> {
    if !is_raw_form(s) && url_last_segment(s) is None {
        Some(AppError::InvalidUrl)
    } else {
        None
    }
}

/// The first error of the filesystem pass at or after `k`, in list order.
pub open spec fn first_fs_error(ss: Seq<Seq<char>>, k: int) -> Option<AppError>
    decreases ss.len() - k,
{
    if k < 0 || k >= ss.len() {
        None
    } else if fs_file_error(ss[k]) is Some {
        fs_file_error(ss[k])
    } else {
        first_fs_error(ss, k + 1)
    }
}

/// How many artifacts of the list are filesystem-relative.
pub open spec fn fs_count(ss: Seq<Seq<char>>) -> int
    decreases ss.len(),
{
    if ss.len() == 0 {
        0
    } else {
        fs_count(ss.drop_last()) + if !is_raw_form(ss.last()) {
            1int
        } else {
            0int
        }
    }
}

/// How many filesystem artifacts would be created: those whose file name
/// is not among the names already present at the volume root.
pub open spec fn count_written(ss: Seq<Seq<char>>, ex: Seq<Seq<char>>) -> int
    decreases ss.len(),
{
    if ss.len() == 0 {
        0
    } else {
        count_written(ss.drop_last(), ex) + if !is_raw_form(ss.last()) && (url_last_segment(
            ss.last(),
        ) matches Some(n) && !ex.contains(n)) {
            1int
        } else {
            0int
        }
    }
}

/// How many filesystem artifacts would be skipped: those whose file name
/// is already present at the volume root.
pub open spec fn count_skipped(ss: Seq<Seq<char>>, ex: Seq<Seq<char>>) -> int
    decreases ss.len(),
{
    if ss.len() == 0 {
        0
    } else {
        count_skipped(ss.drop_last(), ex) + if !is_raw_form(ss.last()) && (url_last_segment(
            ss.last(),
        ) matches Some(n) && ex.contains(n)) {
            1int
        } else {
            0int
        }
    }
}

/// The filesystem placements an artifact list asks for, in list order:
/// `(file name, source, already present)`.
pub open spec fn place_actions_spec(ss: Seq<Seq<char>>, ex: Seq<Seq<char>>) -> Seq<
    (Seq<char>, Seq<char>, bool),
>
    decreases ss.len(),
{
    if ss.len() == 0 {
        Seq::empty()
    } else {
        let rest = place_actions_spec(ss.drop_last(), ex);
        if !is_raw_form(ss.last()) && url_last_segment(ss.last()) is Some {
            let n = url_last_segment(ss.last()).unwrap();
            rest.push((n, ss.last(), ex.contains(n)))
        } else {
            rest
        }
    }
}

/// Every run's counts add up: written plus skipped equals the number of
/// filesystem-relative artifacts, when no artifact errs.
pub proof fn lemma_place_counts_total(ss: Seq<Seq<char>>, ex: Seq<Seq<char>>)
    requires
        forall|k: int| 0 <= k < ss.len() ==> fs_file_error(#[trigger] ss[k]) is None,
    ensures
        count_written(ss, ex) + count_skipped(ss, ex) == fs_count(ss),
    decreases ss.len(),
{
    if ss.len() > 0 {
        assert(forall|k: int|
            0 <= k < ss.len() - 1 ==> #[trigger] ss.drop_last()[k] == ss[k]);
        lemma_place_counts_total(ss.drop_last(), ex);
        assert(fs_file_error(ss[ss.len() - 1]) is None);
    }
}

/// A run against a root that already holds every filesystem artifact's
/// file writes nothing: it skips them all.
pub proof fn lemma_rerun_skips_all(ss: Seq<Seq<char>>, ex: Seq<Seq<char>>)
    requires
        forall|k: int|
            0 <= k < ss.len() && !is_raw_form(#[trigger] ss[k]) ==> (url_last_segment(ss[k])
                matches Some(n) && ex.contains(n)),
    ensures
        count_written(ss, ex) == 0,
        count_skipped(ss, ex) == fs_count(ss),
    decreases ss.len(),
{
    if ss.len() > 0 {
        assert(forall|k: int|
            0 <= k < ss.len() - 1 ==> #[trigger] ss.drop_last()[k] == ss[k]);
        lemma_rerun_skips_all(ss.drop_last(), ex);
        assert(ss[ss.len() - 1] == ss.last());
    }
}

proof fn lemma_first_fs_error_step(ss: Seq<Seq<char>>, j: int, m: int)
    requires
        0 <= j <= m <= ss.len(),
        forall|k: int| j <= k < m ==> fs_file_error(ss[k]) is None,
    ensures
        first_fs_error(ss, j) == first_fs_error(ss, m),
    decreases m - j,
{
    if j < m {
        lemma_first_fs_error_step(ss, j + 1, m);
    }
}

/// Whether `s` matches the raw artifact form.
pub fn raw_form(s: &String) -> (r: bool)
    ensures
        r == is_raw_form(s@),
{
    let st: &str = s.as_str();
    let n: usize = st.unicode_len();
    let i: usize = digit_prefix_end(st);
    if 1 <= i && i < n && n - i >= 2 {
        st.get_char(i) == ','
    } else {
        false
    }
}

/// Whether `name` occurs in `v`, compared by contents.
fn contains_string(v: &Vec<String>, name: &String) -> (r: bool)
    ensures
        r == views(v@).contains(name@),
{
    let mut j: usize = 0;
    while j < v.len()
        invariant
            j <= v@.len(),
            forall|k: int| 0 <= k < j ==> views(v@)[k] != name@,
        decreases v@.len() - j,
    {
        if v[j] == *name {
            proof {
                assert(views(v@)[j as int] == name@);
            }
            return true;
        }
        j = j + 1;
    }
    false
}

/// Decide the filesystem pass of provisioning: which artifacts become
/// files at the boot volume's root, each with its file name (the source's
/// final path segment) and whether it is skipped because a file of that
/// name is already present (the idempotent re-run case).
///
/// Raw-form artifacts are passed over. The pass is fail-fast: the first
/// offending artifact aborts it with that artifact's error, and an empty
/// list is rejected with `NoFiles`. On success the counts satisfy
/// `written + skipped == fs_count`.
pub fn place_files(files: &Vec<String>, existing: &Vec<String>) -> (r: Result<PlacePlan, AppError>)
    ensures
        files@.len() == 0 ==> (r matches Err(e) && e matches AppError::NoFiles),
        files@.len() > 0 ==> match r {
            Ok(p) => {
                &&& first_fs_error(views(files@), 0) is None
                &&& p.actions@.map_values(
                    |a: FsPlacement| (a.filename@, a.source@, a.present),
                ) == place_actions_spec(views(files@), views(existing@))
                &&& p.result.written == count_written(views(files@), views(existing@))
                &&& p.result.skipped == count_skipped(views(files@), views(existing@))
                &&& p.result.written + p.result.skipped == fs_count(views(files@))
            },
            Err(e) => first_fs_error(views(files@), 0) == Some(e),
        },
{
    if files.len() == 0 {
        return Err(AppError::NoFiles);
    }
    let ghost ss = views(files@);
    let ghost ex = views(existing@);
    let mut actions: Vec<FsPlacement> = Vec::new();
    let mut written: usize = 0;
    let mut skipped: usize = 0;
    let mut idx: usize = 0;
    while idx < files.len()
        invariant
            ss == views(files@),
            ex == views(existing@),
            idx <= files@.len(),
            written <= idx,
            skipped <= idx,
            forall|k: int| 0 <= k < idx ==> fs_file_error(ss[k]) is None,
            actions@.map_values(|a: FsPlacement| (a.filename@, a.source@, a.present))
                == place_actions_spec(ss.subrange(0, idx as int), ex),
            written == count_written(ss.subrange(0, idx as int), ex),
            skipped == count_skipped(ss.subrange(0, idx as int), ex),
        decreases files@.len() - idx,
    {
        let ghost prefix = ss.subrange(0, idx as int);
        let ghost prefix1 = ss.subrange(0, idx + 1);
        proof {
            assert(prefix1.drop_last() =~= prefix);
            assert(prefix1.last() == ss[idx as int]);
        }
        let s = &files[idx];
        if !raw_form(s) {
            match url_file_name(s) {
                None => {
                    proof {
                        assert(fs_file_error(ss[idx as int]) == Some(AppError::InvalidUrl));
                        lemma_first_fs_error_step(ss, 0, idx as int);
                    }
                    return Err(AppError::InvalidUrl);
                },
                Some(filename) => {
                    let present: bool = contains_string(existing, &filename);
                    let ghost oldmapped = actions@.map_values(
                        |a: FsPlacement| (a.filename@, a.source@, a.present),
                    );
                    if present {
                        skipped = skipped + 1;
                    } else {
                        written = written + 1;
                    }
                    actions.push(FsPlacement { filename, source: s.clone(), present });
                    proof {
                        assert(actions@.map_values(
                            |a: FsPlacement| (a.filename@, a.source@, a.present),
                        ) =~= oldmapped.push(
                            (
                                actions@.last().filename@,
                                actions@.last().source@,
                                actions@.last().present,
                            ),
                        ));
                    }
                },
            }
        }
        idx = idx + 1;
    }
    proof {
        assert(ss.subrange(0, idx as int) =~= ss);
        lemma_first_fs_error_step(ss, 0, ss.len() as int);
        lemma_place_counts_total(ss, ex);
    }
    Ok(
        PlacePlan {
            actions,
            result: ProvisioningResult { written, skipped },
        },
    )
}

} // verus!
