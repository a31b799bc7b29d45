//! Checking buffers: locating typos by line and applying fixes.

use vstd::prelude::*;
use vstd::string::StringSliceAdditionalSpecFns;
use vstd::utf8::{decode_utf8, encode_utf8, valid_utf8};

use crate::check::{typos_view, Typo, TypoView};
use crate::dict::{Status, StatusView};
use crate::pattern::{regex_find_spans, Pattern};

verus! {

// ---------------------------------------------------------------------------------------
// Fixes
// ---------------------------------------------------------------------------------------

/// A typo is fixable when it has exactly one correction.
pub open spec fn spec_fixable(t: TypoView) -> bool {
    t.2 matches StatusView::Corrections(c) && c.len() == 1
}

/// The only correction of a fixable typo.
pub open spec fn spec_fix(t: TypoView) -> Seq<char> {
    match t.2 {
        StatusView::Corrections(c) => c[0],
        _ => Seq::empty(),
    }
}

/// `buf` with the bytes `start..end` replaced by `with`.
pub open spec fn splice(buf: Seq<u8>, start: int, end: int, with: Seq<u8>) -> Seq<u8> {
    buf.take(start) + with + buf.skip(end)
}

/// Where the typo `t` stands in a buffer whose earlier fixes shifted it by `delta` bytes.
pub open spec fn fix_start(t: TypoView, delta: int) -> int {
    t.0 + delta
}

pub open spec fn fix_end(t: TypoView, delta: int) -> int {
    t.0 + delta + encode_utf8(t.1).len()
}

pub open spec fn fix_delta(t: TypoView, delta: int) -> int {
    delta + encode_utf8(spec_fix(t)).len() - encode_utf8(t.1).len()
}

/// The buffer after replacing, in turn, each typo `typos[k..]` by its correction; earlier
/// replacements shift later ones by the change in length (`delta`).
pub open spec fn apply_fixes(buf: Seq<u8>, typos: Seq<TypoView>, k: int, delta: int) -> Seq<u8>
    decreases typos.len() - k,
{
    if k < 0 || k >= typos.len() {
        buf
    } else {
        let t = typos[k];
        apply_fixes(
            splice(buf, fix_start(t, delta), fix_end(t, delta), encode_utf8(spec_fix(t))),
            typos,
            k + 1,
            fix_delta(t, delta),
        )
    }
}

/// Every typo `typos[k..]` is fixable and, shifted by the earlier fixes, lies in the buffer.
pub open spec fn fixes_apply(buf: Seq<u8>, typos: Seq<TypoView>, k: int, delta: int) -> bool
    decreases typos.len() - k,
{
    if k < 0 || k >= typos.len() {
        true
    } else {
        let t = typos[k];
        &&& spec_fixable(t)
        &&& 0 <= fix_start(t, delta) <= fix_end(t, delta) <= buf.len()
        &&& fixes_apply(
            splice(buf, fix_start(t, delta), fix_end(t, delta), encode_utf8(spec_fix(t))),
            typos,
            k + 1,
            fix_delta(t, delta),
        )
    }
}

/// Each typo `typos[k..]` has one correction, starts at or after `pos` (where the one
/// before it ended) and ends inside a buffer of `len` bytes.
pub open spec fn spans_ordered(len: int, typos: Seq<TypoView>, k: int, pos: int) -> bool
    decreases typos.len() - k,
{
    if k < 0 || k >= typos.len() {
        true
    } else {
        let t = typos[k];
        &&& spec_fixable(t)
        &&& pos <= t.0
        &&& t.0 + encode_utf8(t.1).len() <= len
        &&& spans_ordered(len, typos, k + 1, t.0 + encode_utf8(t.1).len())
    }
}

/// The buffer from `pos` on with each typo `typos[k..]` replaced, at its own offset, by its
/// correction: the bytes up to the typo, the correction, then the rest after the typo.
pub open spec fn stitched(buf: Seq<u8>, typos: Seq<TypoView>, k: int, pos: int) -> Seq<u8>
    decreases typos.len() - k,
{
    if k < 0 || k >= typos.len() {
        buf.skip(pos)
    } else {
        let t = typos[k];
        buf.subrange(pos, t.0) + encode_utf8(spec_fix(t)) + stitched(
            buf,
            typos,
            k + 1,
            t.0 + encode_utf8(t.1).len(),
        )
    }
}

/// How much the fixes `typos[k..]` change the length: the corrections' bytes less the
/// typos' bytes.
pub open spec fn total_delta(typos: Seq<TypoView>, k: int) -> int
    decreases typos.len() - k,
{
    if k < 0 || k >= typos.len() {
        0
    } else {
        encode_utf8(spec_fix(typos[k])).len() - encode_utf8(typos[k].1).len() + total_delta(
            typos,
            k + 1,
        )
    }
}

proof fn lemma_stitch(buf: Seq<u8>, typos: Seq<TypoView>, k: int, pos: int, delta: int, prefix: Seq<u8>)
    requires
        0 <= k,
        0 <= pos <= buf.len(),
        prefix.len() == pos + delta,
        spans_ordered(buf.len() as int, typos, k, pos),
    ensures
        fixes_apply(prefix + buf.skip(pos), typos, k, delta),
        apply_fixes(prefix + buf.skip(pos), typos, k, delta) == prefix + stitched(buf, typos, k, pos),
    decreases typos.len() - k,
{
    let cur = prefix + buf.skip(pos);
    if k < typos.len() {
        let t = typos[k];
        let tl = encode_utf8(t.1).len() as int;
        let fix = encode_utf8(spec_fix(t));
        let e = t.0 + tl;
        let next_prefix = prefix + buf.subrange(pos, t.0) + fix;
        assert(splice(cur, fix_start(t, delta), fix_end(t, delta), fix) =~= next_prefix + buf.skip(e));
        lemma_stitch(buf, typos, k + 1, e, fix_delta(t, delta), next_prefix);
        assert(next_prefix + stitched(buf, typos, k + 1, e) =~= prefix + stitched(buf, typos, k, pos));
    }
}

/// Fixing typos that come in order and apart, each with one correction and inside the
/// buffer, applies, and replaces each typo at its offset in the original buffer by its
/// correction, keeping every byte between them.
pub proof fn lemma_fix_closed_form(buf: Seq<u8>, typos: Seq<TypoView>)
    requires
        spans_ordered(buf.len() as int, typos, 0, 0),
    ensures
        fixes_apply(buf, typos, 0, 0),
        apply_fixes(buf, typos, 0, 0) == stitched(buf, typos, 0, 0),
{
    assert(Seq::<u8>::empty() + buf.skip(0) =~= buf);
    lemma_stitch(buf, typos, 0, 0, 0, Seq::<u8>::empty());
    assert(Seq::<u8>::empty() + stitched(buf, typos, 0, 0) =~= stitched(buf, typos, 0, 0));
}

/// Fixes that apply change the buffer's length by the corrections' bytes less the typos'
/// bytes.
pub proof fn lemma_fix_length(buf: Seq<u8>, typos: Seq<TypoView>, k: int, delta: int)
    requires
        0 <= k,
        fixes_apply(buf, typos, k, delta),
    ensures
        apply_fixes(buf, typos, k, delta).len() == buf.len() + total_delta(typos, k),
    decreases typos.len() - k,
{
    if k < typos.len() {
        let t = typos[k];
        let next = splice(buf, fix_start(t, delta), fix_end(t, delta), encode_utf8(spec_fix(t)));
        lemma_fix_length(next, typos, k + 1, fix_delta(t, delta));
    }
}

/// The correction of a typo with exactly one correction.
pub fn extract_fix(typo: &Typo) -> (r: Option<&str>)
    ensures
        r is Some <==> spec_fixable(typo@),
        r matches Some(s) ==> s@ == spec_fix(typo@),
{
    match &typo.corrections {
        Status::Corrections(c) => {
            if c.len() == 1 {
                Some(c[0].as_str())
            } else {
                None
            }
        },
        _ => None,
    }
}

pub fn is_fixable(typo: &Typo) -> (r: bool)
    ensures
        r == spec_fixable(typo@),
{
    extract_fix(typo).is_some()
}

fn push_all(dst: &mut Vec<u8>, src: &[u8])
    ensures
        final(dst)@ == old(dst)@ + src@,
{
    let mut i: usize = 0;
    while i < src.len()
        invariant
            i <= src@.len(),
            dst@ == old(dst)@ + src@.take(i as int),
        decreases src@.len() - i,
    {
        dst.push(src[i]);
        i = i + 1;
        assert(dst@ =~= old(dst)@ + src@.take(i as int));
    }
    assert(src@.take(src@.len() as int) =~= src@);
}

/// Every typo `typos[k..]` is fixable and, shifted by the earlier fixes, lies in a buffer
/// of `len` bytes, and no fixed buffer is longer than a `Vec` can be.
pub open spec fn fixes_fit(len: int, typos: Seq<TypoView>, k: int, delta: int) -> bool
    decreases typos.len() - k,
{
    if k < 0 || k >= typos.len() {
        true
    } else {
        let t = typos[k];
        let new_len = len - (fix_end(t, delta) - fix_start(t, delta)) + encode_utf8(spec_fix(t)).len();
        &&& spec_fixable(t)
        &&& 0 <= fix_start(t, delta) <= fix_end(t, delta) <= len
        &&& new_len <= usize::MAX
        &&& fixes_fit(new_len, typos, k + 1, fix_delta(t, delta))
    }
}

/// Fixes that fit apply.
pub proof fn lemma_fixes_fit(buf: Seq<u8>, typos: Seq<TypoView>, k: int, delta: int)
    requires
        fixes_fit(buf.len() as int, typos, k, delta),
    ensures
        fixes_apply(buf, typos, k, delta),
    decreases typos.len() - k,
{
    if 0 <= k < typos.len() {
        let t = typos[k];
        let next = splice(buf, fix_start(t, delta), fix_end(t, delta), encode_utf8(spec_fix(t)));
        assert(next.len() == buf.len() - (fix_end(t, delta) - fix_start(t, delta)) + encode_utf8(
            spec_fix(t),
        ).len());
        lemma_fixes_fit(next, typos, k + 1, fix_delta(t, delta));
    }
}

/// Whether the typos can all be fixed in a buffer of `len` bytes.
pub fn fixes_fit_in(len: usize, typos: &Vec<Typo>) -> (r: bool)
    ensures
        r == fixes_fit(len as int, typos_view(typos@), 0, 0),
{
    let ghost tv = typos_view(typos@);
    let mut cur: usize = len;
    let mut delta: i128 = 0;
    let mut k: usize = 0;
    while k < typos.len()
        invariant
            k <= typos@.len(),
            tv == typos_view(typos@),
            delta == cur - len,
            fixes_fit(len as int, tv, 0, 0) == fixes_fit(cur as int, tv, k as int, delta as int),
        decreases typos@.len() - k,
    {
        let typo = &typos[k];
        assert(tv[k as int] == typo@);
        let ghost t = tv[k as int];
        let fix = match extract_fix(typo) {
            Some(f) => f,
            None => {
                return false;
            },
        };
        let fix_len = fix.as_bytes().len();
        let typo_len = typo.typo.as_str().as_bytes().len();
        assert(fix_len == encode_utf8(spec_fix(t)).len());
        assert(typo_len == encode_utf8(t.1).len());
        let start: i128 = typo.byte_offset as i128 + delta;
        let end: i128 = start + typo_len as i128;
        if start < 0 || end > cur as i128 {
            return false;
        }
        let new_len: i128 = cur as i128 - typo_len as i128 + fix_len as i128;
        if new_len > usize::MAX as i128 {
            return false;
        }
        delta = delta + fix_len as i128 - typo_len as i128;
        cur = new_len as usize;
        k = k + 1;
    }
    true
}

/// Replace each typo by its only correction, in order.
pub fn fix_buffer(buffer: Vec<u8>, typos: Vec<Typo>) -> (r: Vec<u8>)
    requires
        fixes_apply(buffer@, typos_view(typos@), 0, 0),
    ensures
        r@ == apply_fixes(buffer@, typos_view(typos@), 0, 0),
{
    let ghost tv = typos_view(typos@);
    let ghost orig = buffer@;
    let mut buffer = buffer;
    let orig_len = buffer.len();
    assert(orig.len() == orig_len);
    let mut delta: i128 = 0;
    let mut k: usize = 0;
    while k < typos.len()
        invariant
            k <= typos@.len(),
            tv == typos_view(typos@),
            buffer@.len() <= usize::MAX,
            delta == buffer@.len() - orig.len(),
            orig.len() <= usize::MAX,
            fixes_apply(buffer@, tv, k as int, delta as int),
            apply_fixes(buffer@, tv, k as int, delta as int) == apply_fixes(orig, tv, 0, 0),
        decreases typos@.len() - k,
    {
        let typo = &typos[k];
        assert(tv[k as int] == typo@);
        let fix = match extract_fix(typo) {
            Some(f) => f,
            None => {
                assert(false);
                return buffer;
            },
        };
        let fix_bytes = fix.as_bytes();
        let typo_bytes = typo.typo.as_str().as_bytes();
        let ghost t = tv[k as int];
        assert(spec_fixable(t));
        assert(0 <= fix_start(t, delta as int) <= fix_end(t, delta as int) <= buffer@.len());
        assert(typo_bytes@ == encode_utf8(t.1));
        assert(fix_bytes@ == encode_utf8(spec_fix(t)));
        let start = (typo.byte_offset as i128 + delta) as usize;
        let end = start + typo_bytes.len();
        let ghost before = buffer@;
        let mut tail = buffer.split_off(end);
        buffer.truncate(start);
        push_all(&mut buffer, fix_bytes);
        buffer.append(&mut tail);
        assert(buffer@ =~= splice(before, fix_start(t, delta as int), fix_end(t, delta as int), encode_utf8(spec_fix(t))));
        delta = delta + fix_bytes.len() as i128 - typo_bytes.len() as i128;
        let cur_len = buffer.len();
        k = k + 1;
    }
    buffer
}

// ---------------------------------------------------------------------------------------
// Lines
// ---------------------------------------------------------------------------------------

pub open spec fn is_newline(b: u8) -> bool {
    b == 10
}

/// The number of `\n` bytes.
pub open spec fn count_newlines(s: Seq<u8>) -> nat
    decreases s.len(),
{
    if s.len() == 0 {
        0
    } else {
        count_newlines(s.drop_last()) + if is_newline(s.last()) {
            1nat
        } else {
            0nat
        }
    }
}

pub proof fn lemma_count_newlines_concat(a: Seq<u8>, b: Seq<u8>)
    ensures
        count_newlines(a + b) == count_newlines(a) + count_newlines(b),
    decreases b.len(),
{
    if b.len() == 0 {
        assert(a + b =~= a);
    } else {
        assert((a + b).drop_last() =~= a + b.drop_last());
        lemma_count_newlines_concat(a, b.drop_last());
    }
}

pub proof fn lemma_count_newlines_bound(s: Seq<u8>)
    ensures
        count_newlines(s) <= s.len(),
    decreases s.len(),
{
    if s.len() > 0 {
        lemma_count_newlines_bound(s.drop_last());
    }
}

pub(crate) fn count_newline_bytes(s: &[u8]) -> (n: usize)
    ensures
        n == count_newlines(s@),
{
    let mut n: usize = 0;
    let mut i: usize = 0;
    while i < s.len()
        invariant
            i <= s@.len(),
            n == count_newlines(s@.take(i as int)),
            n <= i,
        decreases s@.len() - i,
    {
        assert(s@.take(i + 1).drop_last() =~= s@.take(i as int));
        if s[i] == 10 {
            n = n + 1;
        }
        i = i + 1;
    }
    assert(s@.take(s@.len() as int) =~= s@);
    n
}

/// Counts lines incrementally while typos are reported in buffer order.
pub struct AccumulateLineNum {
    line_num: usize,
    last_offset: usize,
}

impl AccumulateLineNum {
    #[verifier::type_invariant]
    spec fn counted(&self) -> bool {
        self.line_num <= self.last_offset + 1
    }

    pub closed spec fn spec_line_num(&self) -> nat {
        self.line_num as nat
    }

    pub closed spec fn spec_last_offset(&self) -> nat {
        self.last_offset as nat
    }

    /// The offset counted up to so far.
    pub fn last_offset(&self) -> (r: usize)
        ensures
            r == self.spec_last_offset(),
    {
        self.last_offset
    }

    /// Line numbers are 1-indexed and counting starts at the beginning of the buffer.
    pub fn new() -> (r: AccumulateLineNum)
        ensures
            r.spec_line_num() == 1,
            r.spec_last_offset() == 0,
    {
        AccumulateLineNum { line_num: 1, last_offset: 0 }
    }

    /// The line number of `byte_offset`, counting the newlines since the last offset asked
    /// about.  Asked about offsets in increasing order of one buffer, it gives each offset's
    /// 1-indexed line.
    pub fn line_num(&mut self, buffer: &[u8], byte_offset: usize) -> (r: usize)
        requires
            old(self).spec_last_offset() <= byte_offset <= buffer@.len(),
            byte_offset < usize::MAX,
        ensures
            r == old(self).spec_line_num() + count_newlines(
                buffer@.subrange(old(self).spec_last_offset() as int, byte_offset as int),
            ),
            final(self).spec_line_num() == r,
            final(self).spec_last_offset() == byte_offset,
            old(self).spec_line_num() == 1 + count_newlines(
                buffer@.take(old(self).spec_last_offset() as int),
            ) ==> r == 1 + count_newlines(buffer@.take(byte_offset as int)),
    {
        proof {
            use_type_invariant(&*self);
        }
        let slice = &buffer[self.last_offset..byte_offset];
        let newlines = count_newline_bytes(slice);
        proof {
            lemma_count_newlines_bound(slice@);
            assert(buffer@.take(byte_offset as int) =~= buffer@.take(self.last_offset as int)
                + slice@);
            lemma_count_newlines_concat(buffer@.take(self.last_offset as int), slice@);
        }
        let line_num = self.line_num + newlines;
        *self = AccumulateLineNum { line_num, last_offset: byte_offset };
        line_num
    }
}

/// The index of the last `\n` before `i`, or -1.
pub open spec fn rfind_newline(buf: Seq<u8>, i: int) -> int
    decreases i,
{
    if i <= 0 {
        -1
    } else if is_newline(buf[i - 1]) {
        i - 1
    } else {
        rfind_newline(buf, i - 1)
    }
}

/// The index of the first `\n` at or after `i`, or the length.
pub open spec fn find_newline(buf: Seq<u8>, i: int) -> int
    decreases buf.len() - i,
{
    if i >= buf.len() {
        buf.len() as int
    } else if is_newline(buf[i]) {
        i
    } else {
        find_newline(buf, i + 1)
    }
}

pub proof fn lemma_rfind_newline(buf: Seq<u8>, i: int)
    requires
        0 <= i <= buf.len(),
    ensures
        -1 <= rfind_newline(buf, i) < i,
    decreases i,
{
    if i > 0 && !is_newline(buf[i - 1]) {
        lemma_rfind_newline(buf, i - 1);
    }
}

pub proof fn lemma_find_newline(buf: Seq<u8>, i: int)
    requires
        0 <= i <= buf.len(),
    ensures
        i <= find_newline(buf, i) <= buf.len(),
        find_newline(buf, i) < buf.len() ==> is_newline(buf[find_newline(buf, i)]),
    decreases buf.len() - i,
{
    if i < buf.len() && !is_newline(buf[i]) {
        lemma_find_newline(buf, i + 1);
    }
}

proof fn lemma_rfind_newline_full(buf: Seq<u8>, i: int)
    requires
        0 <= i <= buf.len(),
    ensures
        -1 <= rfind_newline(buf, i) < i,
        rfind_newline(buf, i) >= 0 ==> buf[rfind_newline(buf, i)] == 10,
        forall|k: int| rfind_newline(buf, i) < k < i ==> #[trigger] buf[k] != 10,
    decreases i,
{
    if i > 0 && !is_newline(buf[i - 1]) {
        lemma_rfind_newline_full(buf, i - 1);
    }
}

proof fn lemma_find_newline_full(buf: Seq<u8>, i: int)
    requires
        0 <= i <= buf.len(),
    ensures
        i <= find_newline(buf, i) <= buf.len(),
        find_newline(buf, i) < buf.len() ==> buf[find_newline(buf, i)] == 10,
        forall|k: int| i <= k < find_newline(buf, i) ==> #[trigger] buf[k] != 10,
    decreases buf.len() - i,
{
    if i < buf.len() && !is_newline(buf[i]) {
        lemma_find_newline_full(buf, i + 1);
    }
}

/// The line around a byte offset: it starts at the buffer's start or just after a `\n`,
/// holds no `\n` up to the offset or up to its end, and ends at the buffer's end, at a
/// `\n`, or at the `\r` of a `\r\n`; a byte that is not a line break lies inside it.
pub proof fn lemma_line_bounds(buf: Seq<u8>, off: int)
    requires
        0 <= off <= buf.len(),
    ensures
        ({
            let st = line_start(buf, off);
            let en = line_end(buf, st);
            &&& 0 <= st <= off
            &&& (st == 0 || buf[st - 1] == 10)
            &&& forall|k: int| st <= k < off ==> #[trigger] buf[k] != 10
            &&& st <= en <= buf.len()
            &&& forall|k: int| st <= k < en ==> #[trigger] buf[k] != 10
            &&& (en == buf.len() || buf[en] == 10 || (buf[en] == 13 && en + 1 < buf.len() && buf[en + 1] == 10))
            &&& (off < buf.len() && buf[off] != 10 && buf[off] != 13 ==> off < en)
        }),
{
    lemma_rfind_newline_full(buf, off);
    let st = line_start(buf, off);
    lemma_find_newline_full(buf, st);
    let j = find_newline(buf, st);
    if off < buf.len() && buf[off] != 10 && buf[off] != 13 {
        assert(off < j) by {
            if j <= off {
                if j < off {
                    assert(buf[j] != 10);
                }
            }
        }
    }
}

/// Where the line holding `byte_offset` starts: just after the previous `\n`.
pub open spec fn line_start(buf: Seq<u8>, byte_offset: int) -> int {
    rfind_newline(buf, byte_offset) + 1
}

/// Where the line starting at `start` ends: at its `\n` (or `\r\n`), or at the end.
pub open spec fn line_end(buf: Seq<u8>, start: int) -> int {
    let j = find_newline(buf, start);
    if j < buf.len() && j > start && buf[j - 1] == 13 {
        j - 1
    } else {
        j
    }
}

/// The line holding `byte_offset`, without its terminator, and the offset within it.  The
/// line must start before the end of the buffer: past a final `\n` there is no line.
pub fn extract_line(buffer: &[u8], byte_offset: usize) -> (r: (&[u8], usize))
    requires
        byte_offset <= buffer@.len(),
        line_start(buffer@, byte_offset as int) < buffer@.len(),
    ensures
        r.0@ == buffer@.subrange(
            line_start(buffer@, byte_offset as int),
            line_end(buffer@, line_start(buffer@, byte_offset as int)),
        ),
        r.1 == byte_offset - line_start(buffer@, byte_offset as int),
{
    proof {
        lemma_rfind_newline(buffer@, byte_offset as int);
    }
    let mut i = byte_offset;
    while i > 0 && buffer[i - 1] != 10
        invariant
            i <= byte_offset <= buffer@.len(),
            rfind_newline(buffer@, i as int) == rfind_newline(buffer@, byte_offset as int),
        decreases i,
    {
        i = i - 1;
    }
    let line_start = i;
    proof {
        lemma_find_newline(buffer@, line_start as int);
    }
    let mut j = line_start;
    while j < buffer.len() && buffer[j] != 10
        invariant
            line_start <= j <= buffer@.len(),
            find_newline(buffer@, j as int) == find_newline(buffer@, line_start as int),
        decreases buffer@.len() - j,
    {
        j = j + 1;
    }
    let end = if j < buffer.len() && j > line_start && buffer[j - 1] == 13 {
        j - 1
    } else {
        j
    };
    (&buffer[line_start..end], byte_offset - line_start)
}

/// The lines of `buf` from `start` on, as `(start, end)` byte ranges without their `\n` or
/// `\r\n` terminator; a last line without terminator counts when it is not empty.
pub open spec fn line_spans(buf: Seq<u8>, start: int) -> Seq<(int, int)>
    decreases buf.len() - start,
{
    if start < 0 || start >= buf.len() {
        seq![]
    } else {
        let j = find_newline(buf, start);
        if j < buf.len() {
            proof {
                lemma_find_newline(buf, start);
            }
            seq![(start, line_end(buf, start))] + line_spans(buf, j + 1)
        } else {
            seq![(start, line_end(buf, start))]
        }
    }
}

/// Each line lies in the buffer, after `start`.
pub proof fn lemma_line_spans_bounds(buf: Seq<u8>, start: int)
    requires
        0 <= start,
    ensures
        forall|i: int|
            0 <= i < line_spans(buf, start).len() ==> start <= (#[trigger] line_spans(buf, start)[i]).0
                <= line_spans(buf, start)[i].1 <= buf.len(),
    decreases buf.len() - start,
{
    if start < buf.len() {
        lemma_find_newline(buf, start);
        let j = find_newline(buf, start);
        if j < buf.len() {
            lemma_line_spans_bounds(buf, j + 1);
            let rest = line_spans(buf, j + 1);
            assert forall|i: int|
                0 <= i < line_spans(buf, start).len() implies start <= (#[trigger] line_spans(buf, start)[i]).0
                    <= line_spans(buf, start)[i].1 <= buf.len() by {
                if i > 0 {
                    assert(line_spans(buf, start)[i] == rest[i - 1]);
                }
            }
        }
    }
}

/// The lines of a buffer, as byte ranges, in order.
pub fn lines(buffer: &[u8]) -> (r: Vec<(usize, usize)>)
    ensures
        r@.map_values(|p: (usize, usize)| (p.0 as int, p.1 as int)) == line_spans(buffer@, 0),
{
    let mut r: Vec<(usize, usize)> = Vec::new();
    let mut start: usize = 0;
    let ghost spans = line_spans(buffer@, 0);
    while start < buffer.len()
        invariant
            start <= buffer@.len(),
            r@.map_values(|p: (usize, usize)| (p.0 as int, p.1 as int)) + line_spans(buffer@, start as int) == spans,
        decreases buffer@.len() - start,
    {
        proof {
            lemma_find_newline(buffer@, start as int);
        }
        let mut j = start;
        while j < buffer.len() && buffer[j] != 10
            invariant
                start <= j <= buffer@.len(),
                find_newline(buffer@, j as int) == find_newline(buffer@, start as int),
            decreases buffer@.len() - j,
        {
            j = j + 1;
        }
        let end = if j < buffer.len() && j > start && buffer[j - 1] == 13 {
            j - 1
        } else {
            j
        };
        let ghost before = r@.map_values(|p: (usize, usize)| (p.0 as int, p.1 as int));
        r.push((start, end));
        assert(r@.map_values(|p: (usize, usize)| (p.0 as int, p.1 as int)) =~= before.push((start as int, end as int)));
        if j < buffer.len() {
            assert(line_spans(buffer@, start as int) == seq![(start as int, end as int)] + line_spans(buffer@, j + 1));
            assert(before.push((start as int, end as int)) + line_spans(buffer@, j + 1) =~= before + (seq![(start as int, end as int)] + line_spans(buffer@, j + 1)));
            start = j + 1;
        } else {
            assert(line_spans(buffer@, start as int) == seq![(start as int, end as int)]);
            assert(line_spans(buffer@, j as int) =~= Seq::<(int, int)>::empty());
            assert(before.push((start as int, end as int)) + line_spans(buffer@, j as int) =~= before + seq![(start as int, end as int)]);
            start = j;
        }
    }
    assert(line_spans(buffer@, start as int) =~= Seq::<(int, int)>::empty());
    assert(r@.map_values(|p: (usize, usize)| (p.0 as int, p.1 as int)) =~= spans);
    r
}

// ---------------------------------------------------------------------------------------
// Ignored regions
// ---------------------------------------------------------------------------------------

/// Byte ranges of a buffer whose terms are not reported.
#[derive(Debug, Clone)]
pub struct Ignores {
    blocks: Vec<(usize, usize)>,
}

pub open spec fn in_block(block: (usize, usize), x: int) -> bool {
    block.0 <= x < block.1
}

/// The end of a span, less one, but never below zero.
pub open spec fn span_last(span: (usize, usize)) -> int {
    if span.1 == 0 {
        0
    } else {
        span.1 - 1
    }
}

/// The last byte of the term of `len` bytes at `start`; 0 for an empty term at 0.
pub open spec fn last_of(start: int, len: int) -> int {
    if start + len == 0 {
        0
    } else {
        start + len - 1
    }
}

/// Whether a block holds the first or the last byte of the term of `len` bytes at `start`.
pub open spec fn spec_ignored_at(blocks: Seq<(usize, usize)>, start: int, len: int) -> bool {
    exists|i: int|
        0 <= i < blocks.len() && (in_block(#[trigger] blocks[i], start) || in_block(
            blocks[i],
            last_of(start, len),
        ))
}

fn contains(block: (usize, usize), x: usize) -> (r: bool)
    ensures
        r == in_block(block, x as int),
{
    block.0 <= x && x < block.1
}

impl View for Ignores {
    type V = Seq<(usize, usize)>;

    closed spec fn view(&self) -> Seq<(usize, usize)> {
        self.blocks@
    }
}

/// The matches of the patterns `patterns[k..]` in `text`, pattern by pattern.
pub open spec fn pattern_blocks(patterns: Seq<Seq<char>>, text: Seq<char>, k: int) -> Seq<(usize, usize)>
    decreases patterns.len() - k,
{
    if k < 0 || k >= patterns.len() {
        seq![]
    } else {
        regex_find_spans(patterns[k], text) + pattern_blocks(patterns, text, k + 1)
    }
}

/// The regions of `content` that the patterns match; none when it is not UTF-8.
pub open spec fn spec_ignore_blocks(patterns: Seq<Seq<char>>, content: Seq<u8>) -> Seq<(usize, usize)> {
    if valid_utf8(content) {
        pattern_blocks(patterns, decode_utf8(content), 0)
    } else {
        seq![]
    }
}

pub open spec fn patterns_view(ps: Seq<Pattern>) -> Seq<Seq<char>> {
    ps.map_values(|p: Pattern| p@)
}

impl Ignores {
    /// The regions of `content` that the patterns match; none when `content` is not UTF-8.
    pub fn new(content: &[u8], ignores: &[Pattern]) -> (r: Ignores)
        ensures
            r@ == spec_ignore_blocks(patterns_view(ignores@), content@),
            forall|i: int| 0 <= i < r@.len() ==> (#[trigger] r@[i]).0 <= r@[i].1 <= content@.len(),
    {
        let ghost pv = patterns_view(ignores@);
        let mut blocks: Vec<(usize, usize)> = Vec::new();
        match crate::tokens::validate_utf8(content) {
            Ok(text) => {
                proof {
                    vstd::utf8::encode_utf8_decode_utf8(text@);
                }
                let mut k: usize = 0;
                while k < ignores.len()
                    invariant
                        k <= ignores@.len(),
                        pv == patterns_view(ignores@),
                        text.spec_bytes() == content@,
                        decode_utf8(content@) == text@,
                        blocks@ + pattern_blocks(pv, text@, k as int) == pattern_blocks(pv, text@, 0),
                        forall|i: int| 0 <= i < blocks@.len() ==> (#[trigger] blocks@[i]).0 <= blocks@[i].1 <= content@.len(),
                    decreases ignores@.len() - k,
                {
                    let mut found = ignores[k].find_spans(text);
                    assert(pv[k as int] == ignores@[k as int]@);
                    let ghost before = blocks@;
                    let ghost added = found@;
                    blocks.append(&mut found);
                    assert(blocks@ =~= before + added);
                    assert(pattern_blocks(pv, text@, k as int) == added + pattern_blocks(pv, text@, k + 1));
                    assert forall|i: int| 0 <= i < blocks@.len() implies (#[trigger] blocks@[i]).0 <= blocks@[i].1 <= content@.len() by {
                        if i >= before.len() {
                            assert(blocks@[i] == added[i - before.len()]);
                        }
                    }
                    k = k + 1;
                }
                assert(pattern_blocks(pv, text@, k as int) =~= Seq::<(usize, usize)>::empty());
                assert(blocks@ =~= pattern_blocks(pv, text@, 0));
            },
            Err(_) => {},
        }
        Ignores { blocks }
    }

    /// Whether the term of `len` bytes at `start` is ignored: a block holds its first byte
    /// or its last byte (`start + len - 1`, or 0 for an empty term at 0).
    pub fn is_ignored_at(&self, start: usize, len: usize) -> (r: bool)
        ensures
            r == spec_ignored_at(self@, start as int, len as int),
    {
        let mut i: usize = 0;
        while i < self.blocks.len()
            invariant
                i <= self@.len(),
                self@ == self.blocks@,
                forall|k: int|
                    0 <= k < i ==> !(in_block(#[trigger] self@[k], start as int) || in_block(
                        self@[k],
                        last_of(start as int, len as int),
                    )),
            decreases self@.len() - i,
        {
            let block = self.blocks[i];
            assert(block == self@[i as int]);
            let hit_last = if len == 0 {
                let last = if start == 0 {
                    0
                } else {
                    start - 1
                };
                contains(block, last)
            } else if start >= block.1 {
                false
            } else {
                let extra = len - 1;
                extra < block.1 - start && (start >= block.0 || extra >= block.0 - start)
            };
            if contains(block, start) || hit_last {
                assert(0 <= i < self@.len() && (in_block(self@[i as int], start as int) || in_block(
                    self@[i as int],
                    last_of(start as int, len as int),
                )));
                return true;
            }
            i = i + 1;
        }
        false
    }

    /// Ignore the given byte ranges.
    pub fn from_blocks(blocks: Vec<(usize, usize)>) -> (r: Ignores)
        ensures
            r@ == blocks@,
    {
        Ignores { blocks }
    }

    /// A span is ignored when a block holds its first byte or its last byte.
    pub fn is_ignored(&self, span: (usize, usize)) -> (r: bool)
        ensures
            r == exists|i: int|
                0 <= i < self@.len() && (in_block(#[trigger] self@[i], span.0 as int) || in_block(
                    self@[i],
                    span_last(span),
                )),
    {
        let start = span.0;
        let end = if span.1 == 0 {
            0
        } else {
            span.1 - 1
        };
        let mut i: usize = 0;
        while i < self.blocks.len()
            invariant
                i <= self@.len(),
                self@ == self.blocks@,
                end == span_last(span),
                start == span.0,
                forall|k: int|
                    0 <= k < i ==> !(in_block(#[trigger] self@[k], start as int) || in_block(
                        self@[k],
                        end as int,
                    )),
            decreases self@.len() - i,
        {
            let block = self.blocks[i];
            assert(block == self@[i as int]);
            assert(end as int == span_last(span));
            if contains(block, start) || contains(block, end) {
                assert(0 <= i < self@.len() && (in_block(self@[i as int], span.0 as int) || in_block(
                    self@[i as int],
                    span_last(span),
                )));
                return true;
            }
            i = i + 1;
        }
        false
    }
}

} // verus!
