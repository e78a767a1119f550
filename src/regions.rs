//! Scanning Eure text for fenced code regions.
use vstd::prelude::*;
use vstd::string::*;

verus! {

/// A fenced code region: the bytes of its content and of its language tag.
#[derive(Debug, Clone, Copy, PartialEq, Eq, Structural)]
pub struct CodeBlockRegion {
    /// Start of the content (after the opening fence line).
    pub content_start: usize,
    /// End of the content (where the closing fence starts).
    pub content_end: usize,
    /// Start of the language tag (right after the opening fence).
    pub lang_start: usize,
    /// End of the language tag.
    pub lang_end: usize,
}

/// Byte value of a backtick.
pub const BACKTICK: u8 = 96;

/// Byte value of a newline.
pub const NEWLINE: u8 = 10;

/// ASCII whitespace as `u8::is_ascii_whitespace` defines it.
pub open spec fn is_ascii_ws(b: u8) -> bool {
    b == 32u8 || b == 9u8 || b == 10u8 || b == 12u8 || b == 13u8
}

/// Three backticks start at `i`.
pub open spec fn is_fence_at(c: Seq<u8>, i: int) -> bool {
    0 <= i && i + 3 <= c.len() && c[i] == BACKTICK && c[i + 1] == BACKTICK && c[i + 2]
        == BACKTICK
}

/// Length of the fence at `i`, counting on from `n` backticks, at most six.
pub open spec fn fence_len(c: Seq<u8>, i: int, n: int) -> int
    decreases 6 - n,
{
    if 0 <= i && n < 6 && i + n < c.len() && c[i + n] == BACKTICK {
        fence_len(c, i, n + 1)
    } else {
        n
    }
}

/// First position from `j` holding whitespace, or the end.
pub open spec fn lang_end_from(c: Seq<u8>, j: int) -> int
    decreases c.len() - j,
{
    if 0 <= j < c.len() && !is_ascii_ws(c[j]) {
        lang_end_from(c, j + 1)
    } else {
        j
    }
}

/// First position from `j` holding a newline, or the end.
pub open spec fn newline_from(c: Seq<u8>, j: int) -> int
    decreases c.len() - j,
{
    if 0 <= j < c.len() && c[j] != NEWLINE {
        newline_from(c, j + 1)
    } else {
        j
    }
}

/// `n` backticks start at `p`.
pub open spec fn run_at(c: Seq<u8>, p: int, n: int) -> bool {
    0 <= p && p + n <= c.len() && forall|k: int| p <= k < p + n ==> c[k] == BACKTICK
}

/// A run of exactly `n` backticks starts at `p`: `n` backticks, with no
/// backtick right before or right after them.
pub open spec fn closing_at(c: Seq<u8>, p: int, n: int) -> bool {
    &&& run_at(c, p, n)
    &&& (p == 0 || c[p - 1] != BACKTICK)
    &&& (p + n == c.len() || c[p + n] != BACKTICK)
}

/// First position from `p` where a run of exactly `n` backticks starts.
pub open spec fn find_run(c: Seq<u8>, p: int, n: int) -> Option<int>
    decreases c.len() - p,
{
    if p < 0 || p + n > c.len() {
        None
    } else if closing_at(c, p, n) {
        Some(p)
    } else if p < c.len() {
        find_run(c, p + 1, n)
    } else {
        None
    }
}

/// The regions found by scanning `c` from position `i`: a fence of three to
/// six backticks, a language tag up to whitespace, the rest of that line,
/// then content up to the first run of exactly as many backticks. An
/// opening fence without such a close starts no region.
pub open spec fn regions_from(c: Seq<u8>, i: int) -> Seq<CodeBlockRegion>
    decreases c.len() - i,
{
    if i < 0 || i >= c.len() {
        Seq::empty()
    } else if is_fence_at(c, i) {
        let n = fence_len(c, i, 3);
        let after = i + n;
        let le = lang_end_from(c, after);
        let nl = newline_from(c, le);
        if nl < c.len() {
            match find_run(c, nl + 1, n) {
                Some(p) => if p + n > i && p + n <= c.len() {
                    seq![
                        CodeBlockRegion {
                            content_start: (nl + 1) as usize,
                            content_end: p as usize,
                            lang_start: after as usize,
                            lang_end: le as usize,
                        },
                    ] + regions_from(c, p + n)
                } else {
                    regions_from(c, i + 1)
                },
                None => regions_from(c, i + 1),
            }
        } else {
            regions_from(c, i + 1)
        }
    } else {
        regions_from(c, i + 1)
    }
}

/// All fenced code regions of `c`.
pub open spec fn code_regions(c: Seq<u8>) -> Seq<CodeBlockRegion> {
    regions_from(c, 0)
}

/// A region lies inside a text of `len` bytes, its tag before its content,
/// and its content after at least one byte.
pub open spec fn region_wf(r: CodeBlockRegion, len: int) -> bool {
    &&& r.lang_start <= r.lang_end
    &&& r.lang_end < r.content_start
    &&& r.content_start <= r.content_end
    &&& r.content_end <= len
}

/// Every region lies inside a text of `len` bytes.
pub open spec fn regions_wf(rs: Seq<CodeBlockRegion>, len: int) -> bool {
    forall|k: int| 0 <= k < rs.len() ==> region_wf(#[trigger] rs[k], len)
}

fn fence_run_len(b: &[u8], i: usize) -> (r: usize)
    requires
        is_fence_at(b@, i as int),
    ensures
        r as int == fence_len(b@, i as int, 3),
        3 <= r <= 6,
        i + r <= b@.len(),
{
    let mut n: usize = 3;
    while n < 6 && n < b.len() - i && b[i + n] == BACKTICK
        invariant
            3 <= n <= 6,
            i + n <= b@.len(),
            fence_len(b@, i as int, 3) == fence_len(b@, i as int, n as int),
        decreases 6 - n,
    {
        n += 1;
    }
    n
}

fn scan_lang_end(b: &[u8], j: usize) -> (r: usize)
    requires
        j <= b@.len(),
    ensures
        r as int == lang_end_from(b@, j as int),
        j <= r <= b@.len(),
{
    let mut k: usize = j;
    while k < b.len() && !(b[k] == 32u8 || b[k] == 9u8 || b[k] == 10u8 || b[k] == 12u8 || b[k]
        == 13u8)
        invariant
            j <= k <= b@.len(),
            lang_end_from(b@, j as int) == lang_end_from(b@, k as int),
        decreases b@.len() - k,
    {
        k += 1;
    }
    k
}

fn scan_newline(b: &[u8], j: usize) -> (r: usize)
    requires
        j <= b@.len(),
    ensures
        r as int == newline_from(b@, j as int),
        j <= r <= b@.len(),
{
    let mut k: usize = j;
    while k < b.len() && b[k] != NEWLINE
        invariant
            j <= k <= b@.len(),
            newline_from(b@, j as int) == newline_from(b@, k as int),
        decreases b@.len() - k,
    {
        k += 1;
    }
    k
}

fn backticks_at(b: &[u8], p: usize, n: usize) -> (r: bool)
    requires
        p + n <= b@.len(),
    ensures
        r == run_at(b@, p as int, n as int),
{
    let blen = b.len();
    let mut k: usize = 0;
    while k < n
        invariant
            k <= n,
            blen == b@.len(),
            p + n <= b@.len(),
            forall|m: int| p <= m < p + k ==> b@[m] == BACKTICK,
        decreases n - k,
    {
        assert(p + k < b@.len());
        if b[p + k] != BACKTICK {
            return false;
        }
        k += 1;
    }
    true
}

fn find_closing_fence(b: &[u8], from: usize, n: usize) -> (r: Option<usize>)
    requires
        from <= b@.len(),
        3 <= n <= 6,
    ensures
        r matches Some(p) ==> find_run(b@, from as int, n as int) == Some(p as int) && from <= p
            && p + n <= b@.len(),
        r is None ==> find_run(b@, from as int, n as int) is None,
{
    let mut p: usize = from;
    while p <= b.len() && n <= b.len() - p
        invariant
            from <= p,
            p <= b@.len() + 1,
            3 <= n <= 6,
            from <= b@.len(),
            find_run(b@, from as int, n as int) == find_run(b@, p as int, n as int),
        decreases b@.len() + 1 - p,
    {
        if backticks_at(b, p, n) && (p == 0 || b[p - 1] != BACKTICK) && (p + n == b.len()
            || b[p + n] != BACKTICK) {
            return Some(p);
        }
        p += 1;
    }
    None
}

/// Finds every fenced code region of `content`, in order.
pub fn find_code_block_regions(content: &str) -> (r: Vec<CodeBlockRegion>)
    ensures
        r@ == code_regions(content.spec_bytes()),
        regions_wf(r@, content.spec_bytes().len() as int),
{
    let b = content.as_bytes();
    let len = b.len();
    let mut regions: Vec<CodeBlockRegion> = Vec::new();
    let mut i: usize = 0;
    while i < len
        invariant
            len == b@.len(),
            i <= len,
            code_regions(b@) == regions@ + regions_from(b@, i as int),
            regions_wf(regions@, len as int),
        decreases len - i,
    {
        if 3 <= len - i && b[i] == BACKTICK && b[i + 1] == BACKTICK && b[i + 2] == BACKTICK {
            let n = fence_run_len(b, i);
            let after = i + n;
            let le = scan_lang_end(b, after);
            let nl = scan_newline(b, le);
            if nl < len {
                let cs = nl + 1;
                match find_closing_fence(b, cs, n) {
                    Some(p) => {
                        let region = CodeBlockRegion {
                            content_start: cs,
                            content_end: p,
                            lang_start: after,
                            lang_end: le,
                        };
                        proof {
                            assert(regions_from(b@, i as int) == seq![region] + regions_from(
                                b@,
                                (p + n) as int,
                            ));
                        }
                        let ghost before = regions@;
                        regions.push(region);
                        proof {
                            assert(code_regions(b@) == regions@ + regions_from(
                                b@,
                                (p + n) as int,
                            ));
                            assert(regions_wf(regions@, len as int)) by {
                                assert forall|k: int| 0 <= k < regions@.len() implies region_wf(
                                    #[trigger] regions@[k],
                                    len as int,
                                ) by {
                                    if k < regions@.len() - 1 {
                                        assert(regions@[k] == before[k]);
                                    }
                                }
                            }
                        }
                        i = p + n;
                        continue ;
                    },
                    None => {},
                }
            }
        }
        i += 1;
    }
    proof {
        assert(regions@ + regions_from(b@, i as int) =~= regions@);
    }
    regions
}

/// The first region whose content overlaps the range `[start, end)`.
pub open spec fn first_overlap(rs: Seq<CodeBlockRegion>, start: int, end: int) -> Option<
    CodeBlockRegion,
>
    decreases rs.len(),
{
    if rs.len() == 0 {
        None
    } else if start < rs[0].content_end && end > rs[0].content_start {
        Some(rs[0])
    } else {
        first_overlap(rs.drop_first(), start, end)
    }
}

/// Finds the first region whose content overlaps `[gap_start, gap_end)`.
pub fn find_code_block_for_range(gap_start: usize, gap_end: usize, regions: &[CodeBlockRegion]) -> (r:
    Option<CodeBlockRegion>)
    ensures
        r == first_overlap(regions@, gap_start as int, gap_end as int),
{
    let mut k: usize = 0;
    assert(regions@.subrange(0, regions@.len() as int) =~= regions@);
    while k < regions.len()
        invariant
            k <= regions@.len(),
            first_overlap(regions@, gap_start as int, gap_end as int) == first_overlap(
                regions@.subrange(k as int, regions@.len() as int),
                gap_start as int,
                gap_end as int,
            ),
        decreases regions@.len() - k,
    {
        let r = regions[k];
        proof {
            let rest = regions@.subrange(k as int, regions@.len() as int);
            assert(rest[0] == r);
            assert(rest.drop_first() =~= regions@.subrange(k + 1, regions@.len() as int));
        }
        if gap_start < r.content_end && gap_end > r.content_start {
            return Some(r);
        }
        k += 1;
    }
    None
}

proof fn lemma_fence_len(c: Seq<u8>, i: int, n: int)
    requires
        is_fence_at(c, i),
        3 <= n <= 6,
        i + n <= c.len(),
        forall|k: int| i <= k < i + n ==> c[k] == BACKTICK,
    ensures
        n <= fence_len(c, i, n) <= 6,
        i + fence_len(c, i, n) <= c.len(),
        forall|k: int| i <= k < i + fence_len(c, i, n) ==> c[k] == BACKTICK,
    decreases 6 - n,
{
    if n < 6 && i + n < c.len() && c[i + n] == BACKTICK {
        lemma_fence_len(c, i, n + 1);
    }
}

proof fn lemma_lang_end(c: Seq<u8>, j: int)
    requires
        0 <= j <= c.len(),
    ensures
        j <= lang_end_from(c, j) <= c.len(),
        lang_end_from(c, j) < c.len() ==> is_ascii_ws(c[lang_end_from(c, j)]),
    decreases c.len() - j,
{
    if j < c.len() && !is_ascii_ws(c[j]) {
        lemma_lang_end(c, j + 1);
    }
}

proof fn lemma_newline(c: Seq<u8>, j: int)
    requires
        0 <= j <= c.len(),
    ensures
        j <= newline_from(c, j) <= c.len(),
        newline_from(c, j) < c.len() ==> c[newline_from(c, j)] == NEWLINE,
    decreases c.len() - j,
{
    if j < c.len() && c[j] != NEWLINE {
        lemma_newline(c, j + 1);
    }
}

proof fn lemma_find_run(c: Seq<u8>, p: int, n: int)
    requires
        0 <= p,
    ensures
        find_run(c, p, n) matches Some(q) ==> p <= q && closing_at(c, q, n),
    decreases c.len() - p,
{
    if !(p < 0 || p + n > c.len()) && !closing_at(c, p, n) && p < c.len() {
        lemma_find_run(c, p + 1, n);
    }
}

/// What the scan guarantees of a region found from position `lo` on: its
/// tag follows a backtick and ends at whitespace, its content starts after
/// a newline and ends where a backtick is.
pub open spec fn region_facts(c: Seq<u8>, r: CodeBlockRegion, lo: int) -> bool {
    &&& lo < r.lang_start
    &&& 1 <= r.lang_start
    &&& c[r.lang_start - 1] == BACKTICK
    &&& r.lang_start <= r.lang_end
    &&& r.lang_end < r.content_start
    &&& r.content_start <= r.content_end
    &&& r.content_end < c.len()
    &&& is_ascii_ws(c[r.lang_end as int])
    &&& c[r.content_start - 1] == NEWLINE
    &&& c[r.content_end as int] == BACKTICK
}

/// The regions found from `i` on satisfy `region_facts` and come in order,
/// each ending before the next one's tag.
pub proof fn lemma_regions_from_facts(c: Seq<u8>, i: int)
    requires
        0 <= i,
        c.len() <= usize::MAX,
    ensures
        forall|k: int|
            0 <= k < regions_from(c, i).len() ==> region_facts(
                c,
                #[trigger] regions_from(c, i)[k],
                i - 1,
            ),
        forall|k1: int, k2: int|
            0 <= k1 < k2 < regions_from(c, i).len() ==> #[trigger] regions_from(c, i)[k1].content_end
                < #[trigger] regions_from(c, i)[k2].lang_start,
    decreases c.len() - i,
{
    let rs = regions_from(c, i);
    if i >= c.len() {
    } else if is_fence_at(c, i) {
        lemma_fence_len(c, i, 3);
        let n = fence_len(c, i, 3);
        let after = i + n;
        lemma_lang_end(c, after);
        let le = lang_end_from(c, after);
        lemma_newline(c, le);
        let nl = newline_from(c, le);
        if nl < c.len() {
            lemma_find_run(c, nl + 1, n);
            match find_run(c, nl + 1, n) {
                Some(p) => {
                    if p + n > i && p + n <= c.len() {
                        lemma_regions_from_facts(c, p + n);
                        let r0 = CodeBlockRegion {
                            content_start: (nl + 1) as usize,
                            content_end: p as usize,
                            lang_start: after as usize,
                            lang_end: le as usize,
                        };
                        let rest = regions_from(c, p + n);
                        assert(rs == seq![r0] + rest);
                        assert(c[p] == BACKTICK);
                        assert(c[after - 1] == BACKTICK);
                        assert(region_facts(c, r0, i - 1));
                        assert forall|k: int| 0 <= k < rs.len() implies region_facts(
                            c,
                            #[trigger] rs[k],
                            i - 1,
                        ) by {
                            if k > 0 {
                                assert(rs[k] == rest[k - 1]);
                                assert(region_facts(c, rest[k - 1], p + n - 1));
                            }
                        }
                        assert forall|k1: int, k2: int|
                            0 <= k1 < k2 < rs.len() implies #[trigger] rs[k1].content_end
                            < #[trigger] rs[k2].lang_start by {
                            assert(rs[k2] == rest[k2 - 1]);
                            assert(region_facts(c, rest[k2 - 1], p + n - 1));
                            if k1 > 0 {
                                assert(rs[k1] == rest[k1 - 1]);
                            }
                        }
                    } else {
                        lemma_regions_from_facts(c, i + 1);
                        assert(rs == regions_from(c, i + 1));
                    }
                },
                None => {
                    lemma_regions_from_facts(c, i + 1);
                    assert(rs == regions_from(c, i + 1));
                },
            }
        } else {
            lemma_regions_from_facts(c, i + 1);
            assert(rs == regions_from(c, i + 1));
        }
    } else {
        lemma_regions_from_facts(c, i + 1);
        assert(rs == regions_from(c, i + 1));
    }
}

} // verus!
