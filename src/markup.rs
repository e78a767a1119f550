//! Byte-level building blocks for markup: escaping, literal output and
//! the final conversion of markup bytes into a `String`.
use vstd::prelude::*;
use vstd::string::*;
use vstd::utf8::*;

verus! {

/// What one byte of text becomes in markup. With `quotes` set, a double
/// quote is escaped too (text inside attribute values and elements).
pub open spec fn escape_byte(b: u8, quotes: bool) -> Seq<u8> {
    if b == 38u8 {
        "&amp;".spec_bytes()
    } else if b == 60u8 {
        "&lt;".spec_bytes()
    } else if b == 62u8 {
        "&gt;".spec_bytes()
    } else if quotes && b == 34u8 {
        "&quot;".spec_bytes()
    } else {
        seq![b]
    }
}

/// Escaped form of a byte string: each byte replaced by `escape_byte`.
pub open spec fn escaped(s: Seq<u8>, quotes: bool) -> Seq<u8>
    decreases s.len(),
{
    if s.len() == 0 {
        Seq::empty()
    } else {
        escaped(s.drop_last(), quotes) + escape_byte(s.last(), quotes)
    }
}

/// Escaping distributes over concatenation.
pub proof fn lemma_escaped_concat(a: Seq<u8>, b: Seq<u8>, quotes: bool)
    ensures
        escaped(a + b, quotes) == escaped(a, quotes) + escaped(b, quotes),
    decreases b.len(),
{
    if b.len() == 0 {
        assert(a + b =~= a);
        assert(escaped(a, quotes) + escaped(b, quotes) =~= escaped(a, quotes));
    } else {
        assert((a + b).drop_last() =~= a + b.drop_last());
        lemma_escaped_concat(a, b.drop_last(), quotes);
        assert((a + b).last() == b.last());
        assert(escaped(a + b, quotes) =~= escaped(a, quotes) + escaped(b, quotes));
    }
}

/// Appends the bytes of `s` to `out`.
pub fn push_str(out: &mut Vec<u8>, s: &str)
    ensures
        final(out)@ == old(out)@ + s.spec_bytes(),
{
    let b = s.as_bytes();
    push_bytes(out, b);
}

/// Appends `b` to `out` unchanged.
pub fn push_bytes(out: &mut Vec<u8>, b: &[u8])
    ensures
        final(out)@ == old(out)@ + b@,
{
    let mut i: usize = 0;
    while i < b.len()
        invariant
            i <= b@.len(),
            out@ == old(out)@ + b@.subrange(0, i as int),
        decreases b@.len() - i,
    {
        out.push(b[i]);
        assert(b@.subrange(0, i + 1) =~= b@.subrange(0, i as int).push(b@[i as int]));
        i += 1;
    }
    assert(b@.subrange(0, b@.len() as int) =~= b@);
}

/// Appends the bytes `b[start..end]` to `out`, escaped.
pub fn push_escaped_range(out: &mut Vec<u8>, b: &[u8], start: usize, end: usize, quotes: bool)
    requires
        start <= end <= b@.len(),
    ensures
        final(out)@ == old(out)@ + escaped(b@.subrange(start as int, end as int), quotes),
{
    let mut i: usize = start;
    while i < end
        invariant
            start <= i <= end <= b@.len(),
            out@ == old(out)@ + escaped(b@.subrange(start as int, i as int), quotes),
        decreases end - i,
    {
        let c = b[i];
        if c == 38u8 {
            push_str(out, "&amp;");
        } else if c == 60u8 {
            push_str(out, "&lt;");
        } else if c == 62u8 {
            push_str(out, "&gt;");
        } else if quotes && c == 34u8 {
            push_str(out, "&quot;");
        } else {
            out.push(c);
        }
        assert(b@.subrange(start as int, i + 1).drop_last() =~= b@.subrange(
            start as int,
            i as int,
        ));
        i += 1;
    }
}

/// Appends `b`, escaped, to `out`.
pub fn push_escaped(out: &mut Vec<u8>, b: &[u8], quotes: bool)
    ensures
        final(out)@ == old(out)@ + escaped(b@, quotes),
{
    push_escaped_range(out, b, 0, b.len(), quotes);
    assert(b@.subrange(0, b@.len() as int) =~= b@);
}

/// Escapes `&`, `<` and `>` in `s`.
pub fn html_escape(s: &str) -> (r: String)
    ensures
        r@ == decode_utf8(escaped(s.spec_bytes(), false)),
{
    let mut out: Vec<u8> = Vec::new();
    push_escaped(&mut out, s.as_bytes(), false);
    proof {
        lemma_str_valid(s);
        lemma_escaped_valid(s.spec_bytes(), false);
    }
    utf8_to_string(&out)
}

/// Relies on `String::from_utf8_lossy`: bytes that are valid UTF-8 are
/// decoded unchanged.
#[verifier::external_body]
pub(crate) fn utf8_to_string(v: &[u8]) -> (r: String)
    ensures
        valid_utf8(v@) ==> r@ == decode_utf8(v@),
{
    String::from_utf8_lossy(v).into_owned()
}

/// The bytes `s[start..end]`, as a `&str`, when both ends lie on
/// character boundaries.
pub open spec fn slice_ok(s: Seq<u8>, start: int, end: int) -> bool {
    &&& 0 <= start <= end <= s.len()
    &&& is_char_boundary(s, start)
    &&& is_char_boundary(s.subrange(start, s.len() as int), end - start)
}

/// Cuts `s[start..end]` out of `s`, or `None` where an end splits a character.
pub fn substr(s: &str, start: usize, end: usize) -> (r: Option<&str>)
    requires
        start <= end <= s.spec_bytes().len(),
    ensures
        r is Some <==> slice_ok(s.spec_bytes(), start as int, end as int),
        r matches Some(t) ==> t.spec_bytes() == s.spec_bytes().subrange(start as int, end as int),
{
    if !s.is_char_boundary(start) {
        return None;
    }
    let (_, tail) = s.split_at(start);
    if !tail.is_char_boundary(end - start) {
        return None;
    }
    let (mid, _) = tail.split_at(end - start);
    proof {
        assert(mid.spec_bytes() =~= s.spec_bytes().subrange(start as int, end as int));
    }
    Some(mid)
}

/// Escaping leaves every byte that is not `&`, `<`, `>` or `"` as it is.
pub proof fn lemma_escaped_identity(s: Seq<u8>, quotes: bool)
    requires
        forall|i: int| 0 <= i < s.len() ==> #[trigger] s[i] >= 128,
    ensures
        escaped(s, quotes) == s,
    decreases s.len(),
{
    if s.len() > 0 {
        lemma_escaped_identity(s.drop_last(), quotes);
        assert(s.drop_last().push(s.last()) =~= s);
    }
}

/// A single ASCII byte is valid UTF-8 in front of valid UTF-8.
pub proof fn lemma_ascii_prefix_valid(b: u8, rest: Seq<u8>)
    requires
        b < 128,
        valid_utf8(rest),
    ensures
        valid_utf8(seq![b] + rest),
{
    let x = seq![b] + rest;
    assert(x[0] == b);
    assert(pop_first_scalar(x) =~= rest);
}

/// Escaping keeps text valid UTF-8.
pub proof fn lemma_escaped_valid(s: Seq<u8>, quotes: bool)
    requires
        valid_utf8(s),
    ensures
        valid_utf8(escaped(s, quotes)),
    decreases s.len(),
{
    if s.len() > 0 {
        let n = length_of_first_scalar(s);
        let first = s.subrange(0, n);
        let rest = s.subrange(n, s.len() as int);
        assert(rest == pop_first_scalar(s));
        assert(s =~= first + rest);
        lemma_escaped_concat(first, rest, quotes);
        lemma_escaped_valid(rest, quotes);
        let er = escaped(rest, quotes);
        if n == 1 {
            let b = s[0];
            assert(first =~= seq![b]);
            assert(first.drop_last() =~= Seq::<u8>::empty());
            assert(escaped(Seq::<u8>::empty(), quotes) == Seq::<u8>::empty());
            assert(first.last() == b);
            assert(escaped(first, quotes) =~= escape_byte(b, quotes));
            if b == 38u8 || b == 60u8 || b == 62u8 || (quotes && b == 34u8) {
                encode_utf8_valid_utf8("&amp;"@);
                encode_utf8_valid_utf8("&lt;"@);
                encode_utf8_valid_utf8("&gt;"@);
                encode_utf8_valid_utf8("&quot;"@);
                valid_utf8_concat(escape_byte(b, quotes), er);
            } else {
                lemma_ascii_prefix_valid(b, er);
            }
        } else {
            assert forall|i: int| 0 <= i < first.len() implies #[trigger] first[i] >= 128 by {
                assert(first[i] == s[i]);
            }
            lemma_escaped_identity(first, quotes);
            let x = first + er;
            assert(x[0] == s[0]);
            assert(x[1] == s[1]);
            if n >= 3 {
                assert(x[2] == s[2]);
            }
            if n >= 4 {
                assert(x[3] == s[3]);
            }
            assert(pop_first_scalar(x) =~= er);
        }
    }
}

/// Valid UTF-8 cut at two character boundaries gives valid UTF-8, and the
/// piece can be taken out as a `&str`.
pub proof fn lemma_slice_valid(c: Seq<u8>, a: int, b: int)
    requires
        valid_utf8(c),
        0 <= a <= b <= c.len(),
        is_char_boundary(c, a),
        is_char_boundary(c, b),
    ensures
        slice_ok(c, a, b),
        valid_utf8(c.subrange(a, b)),
{
    valid_utf8_split(c, a);
    let tail = c.subrange(a, c.len() as int);
    if b < c.len() {
        is_char_boundary_iff_not_is_continuation_byte(c, b);
        assert(tail[b - a] == c[b]);
        is_char_boundary_iff_not_is_continuation_byte(tail, b - a);
    } else {
        is_char_boundary_start_end_of_seq(tail);
        assert(b - a == tail.len());
    }
    valid_utf8_split(tail, b - a);
    assert(tail.subrange(0, b - a) =~= c.subrange(a, b));
}

/// An ASCII byte of valid UTF-8 starts a character.
pub proof fn lemma_ascii_boundary(c: Seq<u8>, k: int)
    requires
        valid_utf8(c),
        0 <= k < c.len(),
        c[k] < 128,
    ensures
        is_char_boundary(c, k),
{
    is_char_boundary_iff_is_leading_byte(c, k);
}

/// The bytes of a string slice are valid UTF-8.
pub proof fn lemma_str_valid(s: &str)
    ensures
        valid_utf8(s.spec_bytes()),
        is_char_boundary(s.spec_bytes(), 0),
        is_char_boundary(s.spec_bytes(), s.spec_bytes().len() as int),
{
    encode_utf8_valid_utf8(s@);
    is_char_boundary_start_end_of_seq(s.spec_bytes());
}

/// Valid UTF-8 put together stays valid; the bytes of any string are
/// valid; escaping keeps bytes valid.
pub proof fn lemma_valid_parts()
    ensures
        forall|a: Seq<u8>, b: Seq<u8>|
            valid_utf8(a) && valid_utf8(b) ==> #[trigger] valid_utf8(a + b),
        forall|t: &str| #[trigger] valid_utf8(t.spec_bytes()),
        forall|cs: Seq<char>| #[trigger] valid_utf8(encode_utf8(cs)),
        forall|x: Seq<u8>, q: bool| valid_utf8(x) ==> #[trigger] valid_utf8(escaped(x, q)),
        valid_utf8(Seq::<u8>::empty()),
{
    assert forall|a: Seq<u8>, b: Seq<u8>| valid_utf8(a) && valid_utf8(b) implies #[trigger] valid_utf8(
        a + b,
    ) by {
        valid_utf8_concat(a, b);
    }
    assert forall|t: &str| #[trigger] valid_utf8(t.spec_bytes()) by {
        encode_utf8_valid_utf8(t@);
    }
    assert forall|cs: Seq<char>| #[trigger] valid_utf8(encode_utf8(cs)) by {
        encode_utf8_valid_utf8(cs);
    }
    assert forall|x: Seq<u8>, q: bool| valid_utf8(x) implies #[trigger] valid_utf8(escaped(x, q)) by {
        lemma_escaped_valid(x, q);
    }
}

/// `h` starts with the bytes `p`.
pub open spec fn starts_with(h: Seq<u8>, p: Seq<u8>) -> bool {
    p.len() <= h.len() && h.subrange(0, p.len() as int) == p
}

/// Decodes escaped text: each entity back to its byte, every other byte
/// kept.
pub open spec fn unescaped(h: Seq<u8>) -> Seq<u8>
    decreases h.len(),
{
    if h.len() == 0 {
        Seq::empty()
    } else if starts_with(h, "&amp;".spec_bytes()) && "&amp;".spec_bytes().len() > 0 {
        seq![38u8] + unescaped(h.subrange("&amp;".spec_bytes().len() as int, h.len() as int))
    } else if starts_with(h, "&lt;".spec_bytes()) && "&lt;".spec_bytes().len() > 0 {
        seq![60u8] + unescaped(h.subrange("&lt;".spec_bytes().len() as int, h.len() as int))
    } else if starts_with(h, "&gt;".spec_bytes()) && "&gt;".spec_bytes().len() > 0 {
        seq![62u8] + unescaped(h.subrange("&gt;".spec_bytes().len() as int, h.len() as int))
    } else if starts_with(h, "&quot;".spec_bytes()) && "&quot;".spec_bytes().len() > 0 {
        seq![34u8] + unescaped(h.subrange("&quot;".spec_bytes().len() as int, h.len() as int))
    } else {
        seq![h[0]] + unescaped(h.subrange(1, h.len() as int))
    }
}

pub proof fn lemma_entity_bytes()
    ensures
        "&amp;".spec_bytes() == seq![38u8, 97u8, 109u8, 112u8, 59u8],
        "&lt;".spec_bytes() == seq![38u8, 108u8, 116u8, 59u8],
        "&gt;".spec_bytes() == seq![38u8, 103u8, 116u8, 59u8],
        "&quot;".spec_bytes() == seq![38u8, 113u8, 117u8, 111u8, 116u8, 59u8],
{
    broadcast use vstd::string::is_ascii_spec_bytes;

    reveal_strlit("&amp;");
    reveal_strlit("&lt;");
    reveal_strlit("&gt;");
    reveal_strlit("&quot;");
    assert(is_ascii("&amp;"));
    assert(is_ascii("&lt;"));
    assert(is_ascii("&gt;"));
    assert(is_ascii("&quot;"));
    assert("&amp;".spec_bytes() =~= seq![38u8, 97u8, 109u8, 112u8, 59u8]);
    assert("&lt;".spec_bytes() =~= seq![38u8, 108u8, 116u8, 59u8]);
    assert("&gt;".spec_bytes() =~= seq![38u8, 103u8, 116u8, 59u8]);
    assert("&quot;".spec_bytes() =~= seq![38u8, 113u8, 117u8, 111u8, 116u8, 59u8]);
}

proof fn lemma_unescaped_step(b: u8, quotes: bool, rest: Seq<u8>)
    ensures
        unescaped(escape_byte(b, quotes) + rest) == seq![b] + unescaped(rest),
{
    lemma_entity_bytes();
    let h = escape_byte(b, quotes) + rest;
    let e = escape_byte(b, quotes);
    assert(h.subrange(0, e.len() as int) =~= e);
    assert(h.subrange(e.len() as int, h.len() as int) =~= rest);
    if !(b == 38u8 || b == 60u8 || b == 62u8 || (quotes && b == 34u8)) {
        assert(e == seq![b]);
        assert(h[0] == b);
        if b != 38u8 {
            assert(!starts_with(h, "&amp;".spec_bytes())) by {
                if starts_with(h, "&amp;".spec_bytes()) {
                    assert(h.subrange(0, 5)[0] == h[0]);
                }
            }
            assert(!starts_with(h, "&lt;".spec_bytes())) by {
                if starts_with(h, "&lt;".spec_bytes()) {
                    assert(h.subrange(0, 4)[0] == h[0]);
                }
            }
            assert(!starts_with(h, "&gt;".spec_bytes())) by {
                if starts_with(h, "&gt;".spec_bytes()) {
                    assert(h.subrange(0, 4)[0] == h[0]);
                }
            }
            assert(!starts_with(h, "&quot;".spec_bytes())) by {
                if starts_with(h, "&quot;".spec_bytes()) {
                    assert(h.subrange(0, 6)[0] == h[0]);
                }
            }
        }
    } else if b == 60u8 {
        assert(!starts_with(h, "&amp;".spec_bytes())) by {
            if starts_with(h, "&amp;".spec_bytes()) {
                assert(h.subrange(0, 5)[1] == h[1]);
            }
        }
    } else if b == 62u8 {
        assert(!starts_with(h, "&amp;".spec_bytes())) by {
            if starts_with(h, "&amp;".spec_bytes()) {
                assert(h.subrange(0, 5)[1] == h[1]);
            }
        }
        assert(!starts_with(h, "&lt;".spec_bytes())) by {
            if starts_with(h, "&lt;".spec_bytes()) {
                assert(h.subrange(0, 4)[1] == h[1]);
            }
        }
    } else if b == 34u8 {
        assert(!starts_with(h, "&amp;".spec_bytes())) by {
            if starts_with(h, "&amp;".spec_bytes()) {
                assert(h.subrange(0, 5)[1] == h[1]);
            }
        }
        assert(!starts_with(h, "&lt;".spec_bytes())) by {
            if starts_with(h, "&lt;".spec_bytes()) {
                assert(h.subrange(0, 4)[1] == h[1]);
            }
        }
        assert(!starts_with(h, "&gt;".spec_bytes())) by {
            if starts_with(h, "&gt;".spec_bytes()) {
                assert(h.subrange(0, 4)[1] == h[1]);
            }
        }
    }
}

/// Escaped text decodes back to exactly the bytes it was made from.
pub proof fn lemma_unescaped_escaped(x: Seq<u8>, quotes: bool)
    ensures
        unescaped(escaped(x, quotes)) == x,
    decreases x.len(),
{
    if x.len() > 0 {
        let rest = x.drop_first();
        assert(x =~= seq![x[0]] + rest);
        lemma_escaped_concat(seq![x[0]], rest, quotes);
        assert(seq![x[0]].drop_last() =~= Seq::<u8>::empty());
        assert(escaped(Seq::<u8>::empty(), quotes) == Seq::<u8>::empty());
        assert(escaped(seq![x[0]], quotes) =~= escape_byte(x[0], quotes));
        lemma_unescaped_step(x[0], quotes, escaped(rest, quotes));
        lemma_unescaped_escaped(rest, quotes);
    }
}

/// The text of markup outside its tags, reading from a state that is
/// inside a tag or not: a tag runs from `<` up to and including `>`.
pub open spec fn strip_from(h: Seq<u8>, in_tag: bool) -> Seq<u8>
    decreases h.len(),
{
    if h.len() == 0 {
        Seq::empty()
    } else if in_tag {
        strip_from(h.drop_first(), h[0] != 62u8)
    } else if h[0] == 60u8 {
        strip_from(h.drop_first(), true)
    } else {
        seq![h[0]] + strip_from(h.drop_first(), false)
    }
}

/// The text of markup with its tags taken out.
pub open spec fn strip_tags(h: Seq<u8>) -> Seq<u8> {
    strip_from(h, false)
}

/// Text without `<` passes through tag stripping unchanged.
pub proof fn lemma_strip_text(t: Seq<u8>, rest: Seq<u8>)
    requires
        forall|i: int| 0 <= i < t.len() ==> t[i] != 60u8,
    ensures
        strip_from(t + rest, false) == t + strip_from(rest, false),
    decreases t.len(),
{
    if t.len() > 0 {
        let h = t + rest;
        assert(h[0] == t[0]);
        assert(h.drop_first() =~= t.drop_first() + rest);
        lemma_strip_text(t.drop_first(), rest);
        assert(seq![t[0]] + t.drop_first() =~= t);
        assert(seq![t[0]] + (t.drop_first() + strip_from(rest, false)) =~= t + strip_from(
            rest,
            false,
        ));
    } else {
        assert(t + rest =~= rest);
        assert(t + strip_from(rest, false) =~= strip_from(rest, false));
    }
}

proof fn lemma_strip_in_tag(u: Seq<u8>, rest: Seq<u8>)
    requires
        u.len() >= 1,
        u.last() == 62u8,
        forall|i: int| 0 <= i < u.len() - 1 ==> u[i] != 62u8,
    ensures
        strip_from(u + rest, true) == strip_from(rest, false),
    decreases u.len(),
{
    let h = u + rest;
    assert(h[0] == u[0]);
    assert(h.drop_first() =~= u.drop_first() + rest);
    if u.len() > 1 {
        lemma_strip_in_tag(u.drop_first(), rest);
    } else {
        assert(u.drop_first() + rest =~= rest);
    }
}

/// A whole tag, from `<` to the first `>`, disappears in tag stripping.
pub proof fn lemma_strip_tag(g: Seq<u8>, rest: Seq<u8>)
    requires
        g.len() >= 2,
        g[0] == 60u8,
        g.last() == 62u8,
        forall|i: int| 0 <= i < g.len() - 1 ==> g[i] != 62u8,
    ensures
        strip_from(g + rest, false) == strip_from(rest, false),
{
    let h = g + rest;
    assert(h[0] == 60u8);
    assert(h.drop_first() =~= g.drop_first() + rest);
    lemma_strip_in_tag(g.drop_first(), rest);
}

/// Escaped text holds no `<`.
pub proof fn lemma_escaped_no_lt(x: Seq<u8>, quotes: bool)
    ensures
        forall|i: int| 0 <= i < escaped(x, quotes).len() ==> escaped(x, quotes)[i] != 60u8,
    decreases x.len(),
{
    lemma_entity_bytes();
    if x.len() > 0 {
        lemma_escaped_no_lt(x.drop_last(), quotes);
        let a = escaped(x.drop_last(), quotes);
        let e = escape_byte(x.last(), quotes);
        assert forall|i: int| 0 <= i < (a + e).len() implies (a + e)[i] != 60u8 by {
            if i >= a.len() {
                assert((a + e)[i] == e[i - a.len()]);
            }
        }
    }
}

/// The bytes of an ASCII string avoid a byte whose character it avoids.
pub proof fn lemma_ascii_lit_avoids(t: &str, b: u8)
    requires
        is_ascii(t),
        forall|i: int| 0 <= i < t@.len() ==> t@[i] != b as char,
    ensures
        t.spec_bytes().len() == t@.len(),
        forall|i: int| 0 <= i < t.spec_bytes().len() ==> t.spec_bytes()[i] != b,
        forall|i: int| 0 <= i < t.spec_bytes().len() ==> t.spec_bytes()[i] == t@[i] as u8,
{
    broadcast use vstd::string::is_ascii_spec_bytes;

    assert forall|i: int| 0 <= i < t.spec_bytes().len() implies t.spec_bytes()[i] != b by {
        assert(t.spec_bytes()[i] == t@[i] as u8);
        assert((t@[i] as u32) < 128);
    }
}

} // verus!
