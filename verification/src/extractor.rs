//! Extraction and substitution of marker-delimited blocks.
//!
//! Content is scanned left to right.  Each occurrence of the open marker
//! starts a block whose body runs up to (but not including) the next
//! occurrence of the close marker; the scan resumes after that close
//! marker.  Extraction returns the block bodies in order of appearance;
//! substitution splices a replacement body into each block, leaving all
//! other text untouched.  An open marker with no following close marker is
//! a defect of the content: extraction treats the remainder of the content
//! as the final body, while substitution reports it as a `TagMismatch`
//! error.

use vstd::prelude::*;
use crate::Error;

verus! {

/// The pair of delimiter byte strings that bound a synchronizable block.
/// Both markers must be non-empty and distinct; master and minion must be
/// configured with the same pair.
pub struct FileTags {
    pub open_tag: Vec<u8>,
    pub close_tag: Vec<u8>,
}

impl FileTags {
    /// A usable marker pair: both markers non-empty and distinct.
    pub open spec fn wf(&self) -> bool {
        &&& self.open_tag@.len() > 0
        &&& self.close_tag@.len() > 0
        &&& self.open_tag@ != self.close_tag@
    }

    pub fn new(open_tag: Vec<u8>, close_tag: Vec<u8>) -> (r: Self)
        requires
            open_tag@.len() > 0,
            close_tag@.len() > 0,
            open_tag@ != close_tag@,
        ensures
            r.open_tag@ == open_tag@,
            r.close_tag@ == close_tag@,
            r.wf(),
    {
        FileTags { open_tag, close_tag }
    }
}

/// `pat` occurs in `s` starting at position `i`.
pub open spec fn match_at(s: Seq<u8>, pat: Seq<u8>, i: int) -> bool {
    &&& 0 <= i
    &&& i + pat.len() <= s.len()
    &&& s.subrange(i, i + pat.len()) == pat
}

/// The position of the leftmost occurrence of `pat` in `s` at or after
/// `from`, if any.
pub open spec fn first_match_from(s: Seq<u8>, pat: Seq<u8>, from: int) -> Option<int>
    decreases s.len() - from
        when 0 <= from && pat.len() > 0
{
    if from + pat.len() > s.len() {
        None
    } else if match_at(s, pat, from) {
        Some(from)
    } else {
        first_match_from(s, pat, from + 1)
    }
}

/// What `first_match_from` returns: an occurrence with none before it, or
/// the absence of any occurrence.
pub proof fn lemma_first_match_from(s: Seq<u8>, pat: Seq<u8>, from: int)
    requires
        0 <= from,
        pat.len() > 0,
    ensures
        match first_match_from(s, pat, from) {
            Some(i) => {
                &&& from <= i
                &&& i + pat.len() <= s.len()
                &&& match_at(s, pat, i)
                &&& forall|k: int| from <= k < i ==> !match_at(s, pat, k)
            },
            None => forall|k: int| from <= k ==> !match_at(s, pat, k),
        },
    decreases s.len() - from,
{
    if from + pat.len() > s.len() {
        assert forall|k: int| from <= k implies !match_at(s, pat, k) by {
            assert(k + pat.len() > s.len());
        }
    } else if match_at(s, pat, from) {
    } else {
        lemma_first_match_from(s, pat, from + 1);
    }
}

/// The outcome of a substitution scan: the rewritten content, or the
/// defect that stopped it.
pub enum Replaced {
    /// The substituted content.
    Done(Seq<u8>),
    /// An open marker had no matching close marker.
    Mismatch,
    /// The replacement blocks ran out before the marker pairs did.
    TooFew,
}

/// The bodies of the blocks of `s` from position `from` on, in order of
/// appearance.  An open marker with no following close marker contributes
/// the remainder of `s` as the final body.
pub open spec fn extract_from(s: Seq<u8>, open: Seq<u8>, close: Seq<u8>, from: int) -> Seq<Seq<u8>>
    decreases s.len() - from
        when 0 <= from <= s.len() && open.len() > 0 && close.len() > 0
        via extract_from_decreases
{
    match first_match_from(s, open, from) {
        None => Seq::empty(),
        Some(i) => {
            let body_start = i + open.len();
            match first_match_from(s, close, body_start) {
                None => seq![s.subrange(body_start, s.len() as int)],
                Some(j) => seq![s.subrange(body_start, j)]
                    + extract_from(s, open, close, j + close.len()),
            }
        },
    }
}

#[via_fn]
proof fn extract_from_decreases(s: Seq<u8>, open: Seq<u8>, close: Seq<u8>, from: int) {
    lemma_first_match_from(s, open, from);
    if let Some(i) = first_match_from(s, open, from) {
        lemma_first_match_from(s, close, i + open.len());
    }
}

/// The substitution scan of `s` from position `from` on, with `reps` as
/// the remaining replacement bodies: each block body is replaced by the
/// next element of `reps`, all other text is copied through.
pub open spec fn replace_from(
    s: Seq<u8>,
    reps: Seq<Seq<u8>>,
    open: Seq<u8>,
    close: Seq<u8>,
    from: int,
) -> Replaced
    decreases s.len() - from
        when 0 <= from <= s.len() && open.len() > 0 && close.len() > 0
        via replace_from_decreases
{
    match first_match_from(s, open, from) {
        None => Replaced::Done(s.subrange(from, s.len() as int)),
        Some(i) => {
            let body_start = i + open.len();
            match first_match_from(s, close, body_start) {
                None => Replaced::Mismatch,
                Some(j) => if reps.len() == 0 {
                    Replaced::TooFew
                } else {
                    match replace_from(s, reps.skip(1), open, close, j + close.len()) {
                        Replaced::Done(rest) => Replaced::Done(
                            s.subrange(from, body_start) + reps[0] + close + rest,
                        ),
                        r => r,
                    }
                },
            }
        },
    }
}

#[via_fn]
proof fn replace_from_decreases(
    s: Seq<u8>,
    reps: Seq<Seq<u8>>,
    open: Seq<u8>,
    close: Seq<u8>,
    from: int,
) {
    lemma_first_match_from(s, open, from);
    if let Some(i) = first_match_from(s, open, from) {
        lemma_first_match_from(s, close, i + open.len());
    }
}

/// The markers of `s` are balanced from position `from` on: the scan finds
/// a close marker for every open marker.
pub open spec fn balanced_from(s: Seq<u8>, open: Seq<u8>, close: Seq<u8>, from: int) -> bool
    decreases s.len() - from
        when 0 <= from <= s.len() && open.len() > 0 && close.len() > 0
        via balanced_from_decreases
{
    match first_match_from(s, open, from) {
        None => true,
        Some(i) => match first_match_from(s, close, i + open.len()) {
            None => false,
            Some(j) => balanced_from(s, open, close, j + close.len()),
        },
    }
}

#[via_fn]
proof fn balanced_from_decreases(s: Seq<u8>, open: Seq<u8>, close: Seq<u8>, from: int) {
    lemma_first_match_from(s, open, from);
    if let Some(i) = first_match_from(s, open, from) {
        lemma_first_match_from(s, close, i + open.len());
    }
}

/// The number of complete marker pairs the scan of `s` finds from position
/// `from` on.
pub open spec fn pair_count(s: Seq<u8>, open: Seq<u8>, close: Seq<u8>, from: int) -> nat
    decreases s.len() - from
        when 0 <= from <= s.len() && open.len() > 0 && close.len() > 0
        via pair_count_decreases
{
    match first_match_from(s, open, from) {
        None => 0,
        Some(i) => match first_match_from(s, close, i + open.len()) {
            None => 0,
            Some(j) => 1 + pair_count(s, open, close, j + close.len()),
        },
    }
}

#[via_fn]
proof fn pair_count_decreases(s: Seq<u8>, open: Seq<u8>, close: Seq<u8>, from: int) {
    lemma_first_match_from(s, open, from);
    if let Some(i) = first_match_from(s, open, from) {
        lemma_first_match_from(s, close, i + open.len());
    }
}

/// The blocks of `content`, scanned from its start.
pub open spec fn extract_spec(content: Seq<u8>, tags: FileTags) -> Seq<Seq<u8>> {
    extract_from(content, tags.open_tag@, tags.close_tag@, 0)
}

/// The substitution of `reps` into `content`, scanned from its start.
pub open spec fn replace_spec(content: Seq<u8>, reps: Seq<Seq<u8>>, tags: FileTags) -> Replaced {
    replace_from(content, reps, tags.open_tag@, tags.close_tag@, 0)
}

/// The markers of `content` are balanced.
pub open spec fn balanced(content: Seq<u8>, tags: FileTags) -> bool {
    balanced_from(content, tags.open_tag@, tags.close_tag@, 0)
}

/// Scans `pat` against `s` at position `k`.
fn bytes_match_at(s: &[u8], pat: &[u8], k: usize) -> (r: bool)
    requires
        k + pat@.len() <= s@.len(),
    ensures
        r == match_at(s@, pat@, k as int),
{
    let n: usize = s.len();
    let mut idx: usize = 0;
    while idx < pat.len()
        invariant
            idx <= pat@.len(),
            n == s@.len(),
            k + pat@.len() <= s@.len(),
            forall|t: int| 0 <= t < idx ==> s@[k + t] == pat@[t],
        decreases pat@.len() - idx,
    {
        if s[k + idx] != pat[idx] {
            proof {
                if match_at(s@, pat@, k as int) {
                    assert(s@.subrange(k as int, k + pat@.len())[idx as int] == pat@[idx as int]);
                }
            }
            return false;
        }
        idx += 1;
    }
    proof {
        assert(s@.subrange(k as int, k + pat@.len()) =~= pat@);
    }
    true
}

/// Finds the leftmost occurrence of `pat` in `s` at or after `from`.
fn find_pattern(s: &[u8], pat: &[u8], from: usize) -> (r: Option<usize>)
    requires
        pat@.len() > 0,
    ensures
        match r {
            Some(i) => {
                &&& first_match_from(s@, pat@, from as int) == Some(i as int)
                &&& from <= i
                &&& i + pat@.len() <= s@.len()
                &&& match_at(s@, pat@, i as int)
            },
            None => first_match_from(s@, pat@, from as int) is None,
        },
{
    if pat.len() > s.len() || from > s.len() - pat.len() {
        return None;
    }
    let n: usize = s.len();
    let last: usize = n - pat.len();
    let mut k: usize = from;
    while k <= last
        invariant
            from <= k,
            pat@.len() > 0,
            k <= last + 1,
            n == s@.len(),
            last == s@.len() - pat@.len(),
            first_match_from(s@, pat@, from as int) == first_match_from(s@, pat@, k as int),
        decreases last + 1 - k,
    {
        if bytes_match_at(s, pat, k) {
            return Some(k);
        }
        k += 1;
    }
    None
}

/// Copies `s[start..end]` into a fresh vector.
fn copy_range(s: &[u8], start: usize, end: usize) -> (r: Vec<u8>)
    requires
        start <= end <= s@.len(),
    ensures
        r@ == s@.subrange(start as int, end as int),
{
    let mut r: Vec<u8> = Vec::new();
    let mut idx: usize = start;
    while idx < end
        invariant
            start <= idx <= end <= s@.len(),
            r@ == s@.subrange(start as int, idx as int),
        decreases end - idx,
    {
        r.push(s[idx]);
        proof {
            assert(s@.subrange(start as int, idx + 1 as int) =~= s@.subrange(
                start as int,
                idx as int,
            ).push(s@[idx as int]));
        }
        idx += 1;
    }
    r
}

/// When the parts of a file are marked with the opening and closing tags,
/// this function extracts the body out of every tag block, in order of
/// appearance.  An open tag with no following close tag contributes the
/// remainder of the content as the final body.
pub fn extract_body_from_tags(file_content: &[u8], tags: &FileTags) -> (r: Vec<Vec<u8>>)
    requires
        tags.wf(),
    ensures
        r.deep_view() == extract_spec(file_content@, *tags),
{
    let ghost open: Seq<u8> = tags.open_tag@;
    let ghost close: Seq<u8> = tags.close_tag@;
    let n: usize = file_content.len();
    let mut result: Vec<Vec<u8>> = Vec::new();
    let mut cursor: usize = 0;
    proof {
        assert(result.deep_view() + extract_from(file_content@, open, close, 0)
            =~= extract_from(file_content@, open, close, 0));
    }
    loop
        invariant_except_break
            n == file_content@.len(),
            cursor <= file_content@.len(),
            tags.wf(),
            open == tags.open_tag@,
            close == tags.close_tag@,
            result.deep_view() + extract_from(file_content@, open, close, cursor as int)
                == extract_from(file_content@, open, close, 0),
        ensures
            result.deep_view() == extract_from(file_content@, open, close, 0),
        decreases file_content@.len() - cursor,
    {
        let ghost prev = result.deep_view();
        let ghost rest = extract_from(file_content@, open, close, cursor as int);
        match find_pattern(file_content, tags.open_tag.as_slice(), cursor) {
            None => {
                proof {
                    assert(rest =~= Seq::<Seq<u8>>::empty());
                    assert(prev + rest =~= prev);
                }
                break;
            },
            Some(i) => {
                let body_start = i + tags.open_tag.len();
                match find_pattern(file_content, tags.close_tag.as_slice(), body_start) {
                    None => {
                        let body = copy_range(file_content, body_start, file_content.len());
                        result.push(body);
                        proof {
                            assert(result.deep_view() =~~= prev.push(body@));
                            assert(rest =~= seq![body@]);
                            assert(prev.push(body@) =~= prev + rest);
                        }
                        break;
                    },
                    Some(j) => {
                        let body = copy_range(file_content, body_start, j);
                        result.push(body);
                        let ghost next = extract_from(
                            file_content@,
                            open,
                            close,
                            j + close.len(),
                        );
                        cursor = j + tags.close_tag.len();
                        proof {
                            assert(result.deep_view() =~~= prev.push(body@));
                            assert(rest =~= seq![body@] + next);
                            assert(prev.push(body@) + next =~= prev + rest);
                        }
                    },
                }
            },
        }
    }
    result
}

/// `r` with `prefix` prepended to its content if it is a success, and `r`
/// itself otherwise.
pub open spec fn prepend_done(prefix: Seq<u8>, r: Replaced) -> Replaced {
    match r {
        Replaced::Done(rest) => Replaced::Done(prefix + rest),
        _ => r,
    }
}

/// Appends `s[start..end]` to `dst`.
fn append_range(dst: &mut Vec<u8>, s: &[u8], start: usize, end: usize)
    requires
        start <= end <= s@.len(),
    ensures
        final(dst)@ == old(dst)@ + s@.subrange(start as int, end as int),
{
    let ghost dst0: Seq<u8> = dst@;
    let mut idx: usize = start;
    while idx < end
        invariant
            start <= idx <= end <= s@.len(),
            dst@ == dst0 + s@.subrange(start as int, idx as int),
        decreases end - idx,
    {
        dst.push(s[idx]);
        proof {
            assert(dst0 + s@.subrange(start as int, idx + 1 as int) =~= (dst0 + s@.subrange(
                start as int,
                idx as int,
            )).push(s@[idx as int]));
        }
        idx += 1;
    }
}

/// Replaces the body of every tag block of `file` with the corresponding
/// element of `body`, by order of appearance, copying all text outside the
/// block bodies through unchanged.  Fails with `TagMismatch` if an open
/// tag has no matching close tag, and with `ReplacementCount` if `body`
/// holds fewer entries than `file` holds marker pairs.
pub fn replace_in_tags(file: &[u8], body: &[Vec<u8>], tags: &FileTags) -> (r: Result<
    Vec<u8>,
    Error,
>)
    requires
        tags.wf(),
    ensures
        match r {
            Ok(out) => replace_spec(file@, body.deep_view(), *tags) == Replaced::Done(out@),
            Err(e) => {
                &&& (e == Error::TagMismatch <==> replace_spec(file@, body.deep_view(), *tags)
                    is Mismatch)
                &&& (e == Error::ReplacementCount <==> replace_spec(
                    file@,
                    body.deep_view(),
                    *tags,
                ) is TooFew)
                &&& (e == Error::TagMismatch || e == Error::ReplacementCount)
            },
        },
{
    let ghost s: Seq<u8> = file@;
    let ghost open: Seq<u8> = tags.open_tag@;
    let ghost close: Seq<u8> = tags.close_tag@;
    let ghost reps: Seq<Seq<u8>> = body.deep_view();
    let ghost whole: Replaced = replace_from(s, reps, open, close, 0);
    let n: usize = file.len();
    let mut out: Vec<u8> = Vec::new();
    let mut cursor: usize = 0;
    let mut count: usize = 0;
    proof {
        assert(reps.skip(0) =~= reps);
        match whole {
            Replaced::Done(rest) => {
                assert(Seq::<u8>::empty() + rest =~= rest);
            },
            _ => {},
        }
        assert(whole == prepend_done(out@, replace_from(s, reps.skip(0), open, close, 0)));
    }
    loop
        invariant
            n == s.len(),
            cursor <= n,
            count <= body@.len(),
            tags.wf(),
            s == file@,
            open == tags.open_tag@,
            close == tags.close_tag@,
            reps == body.deep_view(),
            whole == replace_from(s, reps, open, close, 0),
            whole == prepend_done(
                out@,
                replace_from(s, reps.skip(count as int), open, close, cursor as int),
            ),
        decreases s.len() - cursor,
    {
        let ghost out0: Seq<u8> = out@;
        let ghost c0: int = cursor as int;
        let ghost cnt0: int = count as int;
        let ghost rem: Replaced = replace_from(s, reps.skip(cnt0), open, close, c0);
        match find_pattern(file, tags.open_tag.as_slice(), cursor) {
            None => {
                append_range(&mut out, file, cursor, n);
                proof {
                    assert(rem == Replaced::Done(s.subrange(cursor as int, s.len() as int)));
                    assert(whole == Replaced::Done(out@));
                }
                return Ok(out);
            },
            Some(i) => {
                let body_start = i + tags.open_tag.len();
                append_range(&mut out, file, cursor, body_start);
                match find_pattern(file, tags.close_tag.as_slice(), body_start) {
                    None => {
                        proof {
                            assert(rem is Mismatch);
                        }
                        return Err(Error::TagMismatch);
                    },
                    Some(j) => {
                        if count >= body.len() {
                            proof {
                                assert(reps.skip(count as int).len() == 0);
                                assert(rem is TooFew);
                            }
                            return Err(Error::ReplacementCount);
                        }
                        let rep = &body[count];
                        let ghost out1: Seq<u8> = out@;
                        append_range(&mut out, rep.as_slice(), 0, rep.len());
                        append_range(
                            &mut out,
                            tags.close_tag.as_slice(),
                            0,
                            tags.close_tag.len(),
                        );
                        cursor = j + tags.close_tag.len();
                        count = count + 1;
                        proof {
                            let bs: int = i + open.len();
                            let rem2: Replaced = replace_from(
                                s,
                                reps.skip(count as int),
                                open,
                                close,
                                cursor as int,
                            );
                            assert(reps.skip(cnt0).skip(1) =~= reps.skip(count as int));
                            assert(reps.skip(cnt0)[0] =~~= rep@);
                            assert(rep@.subrange(0, rep@.len() as int) =~= rep@);
                            assert(close.subrange(0, close.len() as int) =~= close);
                            assert(out@ == out1 + rep@ + close);
                            assert(out1 == out0 + s.subrange(c0, bs));
                            match rem2 {
                                Replaced::Done(rest) => {
                                    assert(rem == Replaced::Done(
                                        s.subrange(c0, bs) + reps.skip(cnt0)[0] + close + rest,
                                    ));
                                    assert(out0 + (s.subrange(c0, bs) + reps.skip(cnt0)[0]
                                        + close + rest) =~= out@ + rest);
                                },
                                _ => {
                                    assert(rem == rem2);
                                },
                            }
                            assert(whole == prepend_done(out@, rem2));
                        }
                    },
                }
            },
        }
    }
}

/// The scan step of the idempotence law: on content whose markers are
/// balanced from `from` on, substituting the extracted bodies back
/// reproduces the content from `from` on.
proof fn lemma_extract_then_replace(s: Seq<u8>, open: Seq<u8>, close: Seq<u8>, from: int)
    requires
        0 <= from <= s.len(),
        open.len() > 0,
        close.len() > 0,
        balanced_from(s, open, close, from),
    ensures
        replace_from(s, extract_from(s, open, close, from), open, close, from)
            == Replaced::Done(s.subrange(from, s.len() as int)),
    decreases s.len() - from,
{
    lemma_first_match_from(s, open, from);
    match first_match_from(s, open, from) {
        None => {
            assert(extract_from(s, open, close, from) =~= Seq::<Seq<u8>>::empty());
        },
        Some(i) => {
            let bs = i + open.len();
            lemma_first_match_from(s, close, bs);
            match first_match_from(s, close, bs) {
                None => {
                    assert(false);
                },
                Some(j) => {
                    let next = j + close.len();
                    lemma_extract_then_replace(s, open, close, next);
                    let reps = extract_from(s, open, close, from);
                    assert(reps == seq![s.subrange(bs, j)] + extract_from(s, open, close, next));
                    assert(reps.skip(1) =~= extract_from(s, open, close, next));
                    assert(reps[0] == s.subrange(bs, j));
                    assert(s.subrange(j, next) == close);
                    assert(s.subrange(from, bs) + s.subrange(bs, j) + s.subrange(j, next)
                        + s.subrange(next, s.len() as int) =~= s.subrange(from, s.len() as int));
                },
            }
        },
    }
}

/// Idempotence: substituting a content's own extracted block bodies back
/// into it reproduces the content exactly, whenever its markers are
/// balanced.
pub proof fn lemma_substitute_extract_identity(content: Seq<u8>, tags: FileTags)
    requires
        tags.wf(),
        balanced(content, tags),
    ensures
        replace_spec(content, extract_spec(content, tags), tags) == Replaced::Done(content),
{
    lemma_extract_then_replace(content, tags.open_tag@, tags.close_tag@, 0);
    assert(content.subrange(0, content.len() as int) =~= content);
}

/// The scan step of the mismatch laws.
proof fn lemma_replace_from_mismatch(
    s: Seq<u8>,
    reps: Seq<Seq<u8>>,
    open: Seq<u8>,
    close: Seq<u8>,
    from: int,
)
    requires
        0 <= from <= s.len(),
        open.len() > 0,
        close.len() > 0,
    ensures
        replace_from(s, reps, open, close, from) is Done ==> balanced_from(s, open, close, from),
        !balanced_from(s, open, close, from) && reps.len() >= pair_count(s, open, close, from)
            ==> replace_from(s, reps, open, close, from) is Mismatch,
    decreases s.len() - from,
{
    lemma_first_match_from(s, open, from);
    match first_match_from(s, open, from) {
        None => {},
        Some(i) => {
            let bs = i + open.len();
            lemma_first_match_from(s, close, bs);
            match first_match_from(s, close, bs) {
                None => {},
                Some(j) => {
                    lemma_replace_from_mismatch(s, reps.skip(1), open, close, j + close.len());
                },
            }
        },
    }
}

/// Substitution never silently accepts malformed content: a successful
/// substitution implies that the content's markers are balanced.
pub proof fn lemma_substitute_success_implies_balanced(
    content: Seq<u8>,
    reps: Seq<Seq<u8>>,
    tags: FileTags,
)
    requires
        tags.wf(),
        replace_spec(content, reps, tags) is Done,
    ensures
        balanced(content, tags),
{
    lemma_replace_from_mismatch(content, reps, tags.open_tag@, tags.close_tag@, 0);
}

/// Mismatch detection: on content with an open marker that has no matching
/// close marker, substitution reports `Mismatch` (never a truncated
/// result), as long as the replacements do not run out first.
pub proof fn lemma_unmatched_open_is_mismatch(content: Seq<u8>, reps: Seq<Seq<u8>>, tags: FileTags)
    requires
        tags.wf(),
        !balanced(content, tags),
        reps.len() >= pair_count(content, tags.open_tag@, tags.close_tag@, 0),
    ensures
        replace_spec(content, reps, tags) is Mismatch,
{
    lemma_replace_from_mismatch(content, reps, tags.open_tag@, tags.close_tag@, 0);
}

/// The extraction of a span yields at least one body per complete marker
/// pair found in it.
proof fn lemma_extract_count(s: Seq<u8>, open: Seq<u8>, close: Seq<u8>, from: int)
    requires
        0 <= from <= s.len(),
        open.len() > 0,
        close.len() > 0,
    ensures
        extract_from(s, open, close, from).len() >= pair_count(s, open, close, from),
    decreases s.len() - from,
{
    lemma_first_match_from(s, open, from);
    match first_match_from(s, open, from) {
        None => {},
        Some(i) => {
            let bs = i + open.len();
            lemma_first_match_from(s, close, bs);
            match first_match_from(s, close, bs) {
                None => {},
                Some(j) => {
                    lemma_extract_count(s, open, close, j + close.len());
                },
            }
        },
    }
}

/// The complement of the idempotence law: substituting a content's own
/// extracted bodies back into it reports `Mismatch` whenever the markers
/// are not balanced — the extracted bodies are always numerous enough
/// that the scan reaches the unmatched open marker.
pub proof fn lemma_substitute_extract_mismatch(content: Seq<u8>, tags: FileTags)
    requires
        tags.wf(),
        !balanced(content, tags),
    ensures
        replace_spec(content, extract_spec(content, tags), tags) is Mismatch,
{
    lemma_extract_count(content, tags.open_tag@, tags.close_tag@, 0);
    lemma_unmatched_open_is_mismatch(content, extract_spec(content, tags), tags);
}

/// No occurrence of `pat` in `s` starts within `[from, to)`.
pub open spec fn no_match_in(s: Seq<u8>, pat: Seq<u8>, from: int, to: int) -> bool {
    forall|k: int| from <= k < to ==> !match_at(s, pat, k)
}

/// An occurrence with no occurrence before it is the first one.
proof fn lemma_first_match_is(s: Seq<u8>, pat: Seq<u8>, from: int, i: int)
    requires
        0 <= from <= i,
        pat.len() > 0,
        match_at(s, pat, i),
        no_match_in(s, pat, from, i),
    ensures
        first_match_from(s, pat, from) == Some(i),
    decreases i - from,
{
    if from < i {
        lemma_first_match_is(s, pat, from + 1, i);
    }
}

/// No occurrence anywhere from `from` on means the scan finds none.
proof fn lemma_first_match_is_none(s: Seq<u8>, pat: Seq<u8>, from: int)
    requires
        0 <= from,
        pat.len() > 0,
        no_match_in(s, pat, from, s.len() as int),
    ensures
        first_match_from(s, pat, from) is None,
    decreases s.len() - from,
{
    if from + pat.len() <= s.len() {
        lemma_first_match_is_none(s, pat, from + 1);
    }
}

/// Extraction order: content holding exactly two blocks, a first with body
/// `a` and a later one with body `b`, extracts to `[a, b]`, in that order.
/// The `no_match_in` premises say that the marker occurrences written in
/// the concatenation are the ones the scan finds: no stray open marker
/// before the first block, between the blocks, or after the second, and no
/// stray close marker inside either body.
pub proof fn lemma_extract_order(
    content: Seq<u8>,
    tags: FileTags,
    pre: Seq<u8>,
    a: Seq<u8>,
    mid: Seq<u8>,
    b: Seq<u8>,
    post: Seq<u8>,
)
    requires
        tags.wf(),
        content == pre + tags.open_tag@ + a + tags.close_tag@ + mid + tags.open_tag@ + b
            + tags.close_tag@ + post,
        no_match_in(content, tags.open_tag@, 0, pre.len() as int),
        no_match_in(
            content,
            tags.close_tag@,
            (pre.len() + tags.open_tag@.len()) as int,
            (pre.len() + tags.open_tag@.len() + a.len()) as int,
        ),
        no_match_in(
            content,
            tags.open_tag@,
            (pre.len() + tags.open_tag@.len() + a.len() + tags.close_tag@.len()) as int,
            (pre.len() + tags.open_tag@.len() + a.len() + tags.close_tag@.len()
                + mid.len()) as int,
        ),
        no_match_in(
            content,
            tags.close_tag@,
            (pre.len() + tags.open_tag@.len() + a.len() + tags.close_tag@.len() + mid.len()
                + tags.open_tag@.len()) as int,
            (pre.len() + tags.open_tag@.len() + a.len() + tags.close_tag@.len() + mid.len()
                + tags.open_tag@.len() + b.len()) as int,
        ),
        no_match_in(
            content,
            tags.open_tag@,
            (pre.len() + tags.open_tag@.len() + a.len() + tags.close_tag@.len() + mid.len()
                + tags.open_tag@.len() + b.len() + tags.close_tag@.len()) as int,
            content.len() as int,
        ),
    ensures
        extract_spec(content, tags) == seq![a, b],
{
    let open = tags.open_tag@;
    let close = tags.close_tag@;
    let o1 = pre.len() as int;
    let b1 = o1 + open.len();
    let c1 = b1 + a.len();
    let m0 = c1 + close.len();
    let o2 = m0 + mid.len();
    let b2 = o2 + open.len();
    let c2 = b2 + b.len();
    let e2 = c2 + close.len();
    assert(content.subrange(o1, b1) =~= open);
    assert(content.subrange(c1, m0) =~= close);
    assert(content.subrange(o2, b2) =~= open);
    assert(content.subrange(c2, e2) =~= close);
    lemma_first_match_is(content, open, 0, o1);
    lemma_first_match_is(content, close, b1, c1);
    lemma_first_match_is(content, open, m0, o2);
    lemma_first_match_is(content, close, b2, c2);
    lemma_first_match_is_none(content, open, e2);
    assert(content.subrange(b1, c1) =~= a);
    assert(content.subrange(b2, c2) =~= b);
    assert(extract_from(content, open, close, e2) =~= Seq::<Seq<u8>>::empty());
    assert(extract_from(content, open, close, m0) =~= seq![b]);
    assert(extract_from(content, open, close, 0) =~= seq![a, b]);
}

} // verus!
