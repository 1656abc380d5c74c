use vstd::prelude::*;
use vstd::utf8::{decode_utf8, is_char_boundary, group_utf8_lib};
use vstd::string::StringSliceAdditionalSpecFns;
use crate::rule::Rule;

verus! {

/// A tagged span of the input, as the span classifier reports it: a tag, the byte range
/// `[start, end)` of the input it covers, and its immediate sub-spans in input order.
///
/// The builder expects these shapes of sub-spans:
/// - `Link` and `Reference`: the label (whose own sub-spans are its content), then the
///   destination and the title if present, directly, with no wrapping span between;
/// - `Image`: the alternative text, then the destination, directly;
/// - `ListItem`/`ListItemTight`: the marker (`ListIndex` or a bullet), then the content
///   spans themselves, inline tokens and nested blocks alike;
/// - `BulletList`/`OrderedList`: one `ListTight` or `ListLoose` span holding the items;
/// - `Header`: the run of markers, then the title tokens;
/// - `FencedCodeblock`: an optional `InfoStringLanguage`, then the body tokens.
#[derive(Debug)]
pub struct Span {
    pub rule: Rule,
    pub start: usize,
    pub end: usize,
    pub inner: Vec<Span>,
}

/// `[start, end)` is a range of whole characters of `b`.
pub open spec fn range_ok(b: Seq<u8>, start: int, end: int) -> bool {
    0 <= start <= end <= b.len() && is_char_boundary(b, start) && is_char_boundary(b, end)
}

/// The sub-spans lie inside `[start, end)`, in order and without overlap.
pub open spec fn ordered_within(cs: Seq<Span>, start: int, end: int) -> bool {
    &&& forall|i: int| 0 <= i < cs.len() ==> start <= #[trigger] cs[i].start && cs[i].end <= end
    &&& forall|i: int| 0 < i < cs.len() ==> cs[i - 1].end <= #[trigger] cs[i].start
}

impl Span {
    /// The span and all its sub-spans describe whole-character ranges of `b`, each sub-span
    /// inside its parent and after its elder sibling.
    pub open spec fn wf(self, b: Seq<u8>) -> bool
        decreases self,
    {
        &&& range_ok(b, self.start as int, self.end as int)
        &&& ordered_within(self.inner@, self.start as int, self.end as int)
        &&& forall|i: int| 0 <= i < self.inner@.len() ==> (#[trigger] self.inner@[i]).wf(b)
    }

    pub open spec fn text(self, b: Seq<u8>) -> Seq<u8> {
        b.subrange(self.start as int, self.end as int)
    }
}

/// The characters of the bytes `[start, end)` of `b`.
pub open spec fn span_chars(b: Seq<u8>, start: int, end: int) -> Seq<char> {
    decode_utf8(b.subrange(start, end))
}

/// The length of `input` in bytes.
pub fn byte_len(input: &str) -> (n: usize)
    ensures
        n == input.spec_bytes().len(),
{
    input.as_bytes().len()
}

/// Whether `s` is well formed over `input`.
pub fn check_spans(input: &str, s: &Span) -> (r: bool)
    ensures
        r == s.wf(input.spec_bytes()),
    decreases s,
{
    let ghost b = input.spec_bytes();
    proof {
        vstd::utf8::encode_utf8_valid_utf8(input@);
    }
    if !(s.start <= s.end && s.end <= byte_len(input)) || !input.is_char_boundary(s.start)
        || !input.is_char_boundary(s.end) {
        return false;
    }
    let n = s.inner.len();
    let mut i: usize = 0;
    while i < n
        invariant
            n == s.inner@.len(),
            i <= n,
            b == input.spec_bytes(),
            range_ok(b, s.start as int, s.end as int),
            ordered_within(s.inner@.subrange(0, i as int), s.start as int, s.end as int),
            forall|k: int| 0 <= k < i ==> (#[trigger] s.inner@[k]).wf(b),
        decreases n - i,
    {
        let c = &s.inner[i];
        assert(decreases_to!(s => s.inner));
        if !check_spans(input, c) {
            return false;
        }
        if c.start < s.start || c.end > s.end {
            return false;
        }
        if i > 0 && s.inner[i - 1].end > c.start {
            return false;
        }
        assert(s.inner@.subrange(0, i + 1) =~= s.inner@.subrange(0, i as int).push(*c));
        i += 1;
    }
    assert(s.inner@.subrange(0, n as int) =~= s.inner@);
    true
}

/// The text of the byte range `[start, end)` of `input`, borrowed from it.
pub fn slice(input: &str, start: usize, end: usize) -> (r: &str)
    requires
        range_ok(input.spec_bytes(), start as int, end as int),
    ensures
        r.spec_bytes() == input.spec_bytes().subrange(start as int, end as int),
        r@ == span_chars(input.spec_bytes(), start as int, end as int),
{
    broadcast use group_utf8_lib;

    let ghost b = input.spec_bytes();
    let (head, _) = input.split_at(end);
    let ghost h = head.spec_bytes();
    proof {
        vstd::utf8::encode_utf8_valid_utf8(input@);
        assert(h =~= b.subrange(0, end as int));
        vstd::utf8::valid_utf8_split(b, end as int);
        if 0 < start < end {
            assert(h[start as int] == b[start as int]);
            vstd::utf8::is_char_boundary_iff_not_is_continuation_byte(b, start as int);
            vstd::utf8::is_char_boundary_iff_not_is_continuation_byte(h, start as int);
        } else if start == end {
            vstd::utf8::is_char_boundary_start_end_of_seq(h);
        }
    }
    let (_, r) = head.split_at(start);
    assert(r.spec_bytes() =~= b.subrange(start as int, end as int));
    proof {
        vstd::utf8::encode_utf8_decode_utf8(r@);
    }
    r
}

} // verus!
