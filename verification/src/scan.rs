//! Byte-level scanners shared by the request parser: finding line ends,
//! skipping blanks, scanning tokens, trimming trailing blanks, and locating
//! the `": "` separator of a header line.
//!
//! Each scanner exists twice: a recursive spec function that defines it, a
//! characterization lemma that restates it with quantifiers, and (where the
//! parser needs one) an executable loop proved against the spec.

use vstd::prelude::*;

verus! {

/// Bytes treated as blanks when tokenizing a request line and when trimming
/// the tail of a header line: space, horizontal tab, vertical tab, form
/// feed, carriage return.
pub open spec fn is_blank(b: u8) -> bool {
    b == 32 || b == 9 || b == 11 || b == 12 || b == 13
}

/// Runtime test for [`is_blank`].
pub fn blank(b: u8) -> (r: bool)
    ensures
        r == is_blank(b),
{
    b == 32 || b == 9 || b == 11 || b == 12 || b == 13
}

/// Index of the first line feed at or after `from`, if any.
pub open spec fn spec_find_lf(s: Seq<u8>, from: int) -> Option<int>
    decreases s.len() - from
        when 0 <= from <= s.len()
{
    if from >= s.len() {
        None
    } else if s[from] == 10 {
        Some(from)
    } else {
        spec_find_lf(s, from + 1)
    }
}

pub proof fn lemma_find_lf(s: Seq<u8>, from: int)
    requires
        0 <= from <= s.len(),
    ensures
        match spec_find_lf(s, from) {
            Some(j) => from <= j < s.len() && s[j] == 10 && (forall|k: int|
                from <= k < j ==> s[k] != 10),
            None => forall|k: int| from <= k < s.len() ==> s[k] != 10,
        },
    decreases s.len() - from,
{
    if from < s.len() && s[from] != 10 {
        lemma_find_lf(s, from + 1);
    }
}

/// First index in `[from, end)` holding a non-blank byte, or `end`.
pub open spec fn spec_skip_blanks(s: Seq<u8>, from: int, end: int) -> int
    decreases end - from
        when 0 <= from && from <= end && end <= s.len()
{
    if from >= end {
        end
    } else if is_blank(s[from]) {
        spec_skip_blanks(s, from + 1, end)
    } else {
        from
    }
}

pub proof fn lemma_skip_blanks(s: Seq<u8>, from: int, end: int)
    requires
        0 <= from <= end <= s.len(),
    ensures
        from <= spec_skip_blanks(s, from, end) <= end,
        forall|k: int| from <= k < spec_skip_blanks(s, from, end) ==> is_blank(s[k]),
        spec_skip_blanks(s, from, end) < end ==> !is_blank(s[spec_skip_blanks(s, from, end)]),
    decreases end - from,
{
    if from < end && is_blank(s[from]) {
        lemma_skip_blanks(s, from + 1, end);
    }
}

/// First index in `[from, end)` holding a blank byte, or `end`: the end of
/// the token that starts at `from`.
pub open spec fn spec_scan_token(s: Seq<u8>, from: int, end: int) -> int
    decreases end - from
        when 0 <= from && from <= end && end <= s.len()
{
    if from >= end {
        end
    } else if !is_blank(s[from]) {
        spec_scan_token(s, from + 1, end)
    } else {
        from
    }
}

pub proof fn lemma_scan_token(s: Seq<u8>, from: int, end: int)
    requires
        0 <= from <= end <= s.len(),
    ensures
        from <= spec_scan_token(s, from, end) <= end,
        forall|k: int| from <= k < spec_scan_token(s, from, end) ==> !is_blank(s[k]),
        spec_scan_token(s, from, end) < end ==> is_blank(s[spec_scan_token(s, from, end)]),
    decreases end - from,
{
    if from < end && !is_blank(s[from]) {
        lemma_scan_token(s, from + 1, end);
    }
}

/// New end of the region `[start, end)` once trailing blanks are dropped.
pub open spec fn spec_trim_end(s: Seq<u8>, start: int, end: int) -> int
    decreases end - start
        when 0 <= start && start <= end && end <= s.len()
{
    if end <= start {
        start
    } else if is_blank(s[end - 1]) {
        spec_trim_end(s, start, end - 1)
    } else {
        end
    }
}

pub proof fn lemma_trim_end(s: Seq<u8>, start: int, end: int)
    requires
        0 <= start <= end <= s.len(),
    ensures
        start <= spec_trim_end(s, start, end) <= end,
        forall|k: int| spec_trim_end(s, start, end) <= k < end ==> is_blank(s[k]),
        spec_trim_end(s, start, end) > start ==> !is_blank(s[spec_trim_end(s, start, end) - 1]),
    decreases end - start,
{
    if start < end && is_blank(s[end - 1]) {
        lemma_trim_end(s, start, end - 1);
    }
}

/// Index of the first occurrence of `": "` (colon, space) whose two bytes
/// both lie in `[from, end)`, if any.
pub open spec fn spec_find_sep(s: Seq<u8>, from: int, end: int) -> Option<int>
    decreases end - from
        when 0 <= from && end <= s.len()
{
    if from + 2 > end {
        None
    } else if s[from] == 58 && s[from + 1] == 32 {
        Some(from)
    } else {
        spec_find_sep(s, from + 1, end)
    }
}

pub proof fn lemma_find_sep(s: Seq<u8>, from: int, end: int)
    requires
        0 <= from <= end <= s.len(),
    ensures
        match spec_find_sep(s, from, end) {
            Some(j) => from <= j && j + 2 <= end && s[j] == 58 && s[j + 1] == 32 && (forall|k: int|
                #![trigger s[k]]
                from <= k < j ==> !(s[k] == 58 && s[k + 1] == 32)),
            None => forall|k: int|
                #![trigger s[k]]
                from <= k && k + 2 <= end ==> !(s[k] == 58 && s[k + 1] == 32),
        },
    decreases end - from,
{
    if from + 2 <= end && !(s[from] == 58 && s[from + 1] == 32) {
        lemma_find_sep(s, from + 1, end);
    }
}

/// Executable search for the first line feed at or after `from`.
pub fn find_lf(s: &[u8], from: usize) -> (r: Option<usize>)
    requires
        from <= s@.len(),
    ensures
        match r {
            Some(j) => spec_find_lf(s@, from as int) == Some(j as int) && from <= j < s@.len(),
            None => spec_find_lf(s@, from as int) is None,
        },
{
    let mut i: usize = from;
    while i < s.len()
        invariant
            from <= i <= s@.len(),
            forall|k: int| from <= k < i ==> s@[k] != 10,
        decreases s@.len() - i,
    {
        if s[i] == 10 {
            proof {
                lemma_find_lf(s@, from as int);
            }
            return Some(i);
        }
        i += 1;
    }
    proof {
        lemma_find_lf(s@, from as int);
    }
    None
}

/// Executable version of [`spec_skip_blanks`].
pub fn skip_blanks(s: &[u8], from: usize, end: usize) -> (r: usize)
    requires
        from <= end <= s@.len(),
    ensures
        r == spec_skip_blanks(s@, from as int, end as int),
        from <= r <= end,
{
    let mut i: usize = from;
    while i < end
        invariant
            from <= i <= end,
            end <= s@.len(),
            forall|k: int| from <= k < i ==> is_blank(s@[k]),
        decreases end - i,
    {
        if !blank(s[i]) {
            proof {
                lemma_skip_blanks(s@, from as int, end as int);
            }
            return i;
        }
        i += 1;
    }
    proof {
        lemma_skip_blanks(s@, from as int, end as int);
    }
    end
}

/// Executable version of [`spec_scan_token`].
pub fn scan_token(s: &[u8], from: usize, end: usize) -> (r: usize)
    requires
        from <= end <= s@.len(),
    ensures
        r == spec_scan_token(s@, from as int, end as int),
        from <= r <= end,
{
    let mut i: usize = from;
    while i < end
        invariant
            from <= i <= end,
            end <= s@.len(),
            forall|k: int| from <= k < i ==> !is_blank(s@[k]),
        decreases end - i,
    {
        if blank(s[i]) {
            proof {
                lemma_scan_token(s@, from as int, end as int);
            }
            return i;
        }
        i += 1;
    }
    proof {
        lemma_scan_token(s@, from as int, end as int);
    }
    end
}

/// Executable version of [`spec_trim_end`].
pub fn trim_end(s: &[u8], start: usize, end: usize) -> (r: usize)
    requires
        start <= end <= s@.len(),
    ensures
        r == spec_trim_end(s@, start as int, end as int),
        start <= r <= end,
{
    let mut e: usize = end;
    while e > start
        invariant
            start <= e <= end,
            end <= s@.len(),
            forall|k: int| e <= k < end ==> is_blank(s@[k]),
        decreases e,
    {
        if !blank(s[e - 1]) {
            proof {
                lemma_trim_end(s@, start as int, end as int);
            }
            return e;
        }
        e -= 1;
    }
    proof {
        lemma_trim_end(s@, start as int, end as int);
    }
    start
}

/// Executable version of [`spec_find_sep`].
pub fn find_sep(s: &[u8], from: usize, end: usize) -> (r: Option<usize>)
    requires
        from <= end <= s@.len(),
    ensures
        match r {
            Some(j) => spec_find_sep(s@, from as int, end as int) == Some(j as int) && from <= j
                && j + 2 <= end,
            None => spec_find_sep(s@, from as int, end as int) is None,
        },
{
    if end < 2 || end - 2 < from {
        proof {
            lemma_find_sep(s@, from as int, end as int);
        }
        return None;
    }
    let stop = end - 2;
    let mut i: usize = from;
    while i <= stop
        invariant
            from <= i <= stop + 1,
            stop + 2 == end,
            end <= s@.len(),
            forall|k: int| #![trigger s@[k]] from <= k < i ==> !(s@[k] == 58 && s@[k + 1] == 32),
        decreases stop + 1 - i,
    {
        if s[i] == 58 && s[i + 1] == 32 {
            proof {
                lemma_find_sep(s@, from as int, end as int);
            }
            return Some(i);
        }
        i += 1;
    }
    proof {
        lemma_find_sep(s@, from as int, end as int);
    }
    None
}

/// Byte-for-byte equality of two slices.
pub fn bytes_eq(a: &[u8], b: &[u8]) -> (r: bool)
    ensures
        r == (a@ == b@),
{
    if a.len() != b.len() {
        assert(a@ != b@) by {
            assert(a@.len() != b@.len());
        }
        return false;
    }
    let mut i: usize = 0;
    while i < a.len()
        invariant
            a@.len() == b@.len(),
            i <= a@.len(),
            forall|k: int| 0 <= k < i ==> a@[k] == b@[k],
        decreases a@.len() - i,
    {
        if a[i] != b[i] {
            return false;
        }
        i += 1;
    }
    proof {
        assert(a@ =~= b@);
    }
    true
}

} // verus!
