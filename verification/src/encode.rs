//! The line encoder: one text line per measurement, with escaped
//! tag values, a deterministic tag order, and the interval start as
//! trailing timestamp.

use vstd::prelude::*;

use crate::aggregate::{Aggregation, Bucket};
use crate::measurement::{Measurement, Tag};
use crate::numfmt::{dec_of, spec_value_text, u64_dec};

verus! {

/// The characters a tag value must escape: they would otherwise end
/// the value, the tag list, or the key.
pub open spec fn needs_escape(c: char) -> bool {
    c == ',' || c == ' ' || c == '='
}

/// A tag value with a backslash put before every reserved
/// character.
pub open spec fn escape_chars(s: Seq<char>) -> Seq<char>
    decreases s.len(),
{
    if s.len() == 0 {
        Seq::empty()
    } else {
        (if needs_escape(s[0]) {
            seq!['\\', s[0]]
        } else {
            seq![s[0]]
        }) + escape_chars(s.drop_first())
    }
}

/// The reading of an escaped tag value: a backslash followed by a
/// reserved character stands for that character alone.
pub open spec fn unescape_chars(s: Seq<char>) -> Seq<char>
    decreases s.len(),
{
    if s.len() == 0 {
        Seq::empty()
    } else if s[0] == '\\' && s.len() >= 2 && needs_escape(s[1]) {
        seq![s[1]] + unescape_chars(s.skip(2))
    } else {
        seq![s[0]] + unescape_chars(s.skip(1))
    }
}

/// An escaped value never starts with a reserved character.
proof fn lemma_escape_head(s: Seq<char>)
    ensures
        escape_chars(s).len() > 0 ==> !needs_escape(escape_chars(s)[0]),
{
    if s.len() > 0 {
        if needs_escape(s[0]) {
            assert(escape_chars(s)[0] == '\\');
        } else {
            assert(escape_chars(s)[0] == s[0]);
        }
    }
}

/// Escaping loses nothing: reading an escaped tag value back gives
/// the original value, whatever characters it held.
pub proof fn lemma_escape_round_trip(s: Seq<char>)
    ensures
        unescape_chars(escape_chars(s)) == s,
    decreases s.len(),
{
    if s.len() > 0 {
        let rest = s.drop_first();
        lemma_escape_round_trip(rest);
        let e = escape_chars(s);
        if needs_escape(s[0]) {
            assert(e =~= seq!['\\', s[0]] + escape_chars(rest));
            assert(e[0] == '\\' && e[1] == s[0]);
            assert(e.skip(2) =~= escape_chars(rest));
            assert(unescape_chars(e) =~= seq![s[0]] + unescape_chars(escape_chars(rest)));
            assert(unescape_chars(e) =~= s);
        } else {
            assert(e =~= seq![s[0]] + escape_chars(rest));
            assert(e[0] == s[0]);
            assert(e.skip(1) =~= escape_chars(rest));
            if s[0] == '\\' && e.len() >= 2 && needs_escape(e[1]) {
                // the tail is an escaped value, so its head cannot
                // be reserved
                lemma_escape_head(rest);
                assert(escape_chars(rest)[0] == e[1]);
                assert(false);
            }
            assert(unescape_chars(e) =~= seq![s[0]] + unescape_chars(escape_chars(rest)));
            assert(unescape_chars(e) =~= s);
        }
    }
}

/// Escaping a value extended by one character appends that
/// character's escaping.
proof fn lemma_escape_push(s: Seq<char>, c: char)
    ensures
        escape_chars(s.push(c)) == escape_chars(s) + (if needs_escape(c) {
            seq!['\\', c]
        } else {
            seq![c]
        }),
    decreases s.len(),
{
    let one = if needs_escape(c) {
        seq!['\\', c]
    } else {
        seq![c]
    };
    if s.len() == 0 {
        reveal_with_fuel(escape_chars, 2);
        assert(s.push(c)[0] == c);
        assert(s.push(c).drop_first() =~= Seq::<char>::empty());
        assert(escape_chars(s.push(c)) =~= one);
        assert(escape_chars(s) + one =~= one);
    } else {
        assert(s.push(c)[0] == s[0]);
        assert(s.push(c).drop_first() =~= s.drop_first().push(c));
        lemma_escape_push(s.drop_first(), c);
        let head = if needs_escape(s[0]) {
            seq!['\\', s[0]]
        } else {
            seq![s[0]]
        };
        assert(escape_chars(s.push(c)) == head + (escape_chars(s.drop_first()) + one));
        assert(head + (escape_chars(s.drop_first()) + one) =~= (head + escape_chars(
            s.drop_first(),
        )) + one);
    }
}

/// Whether a character is reserved in a tag value.
fn is_reserved(c: char) -> (r: bool)
    ensures
        r == needs_escape(c),
{
    c == ',' || c == ' ' || c == '='
}

/// Escapes a tag value: puts a backslash before every comma, space
/// and equals sign.
pub fn escape_tag_value(s: &str) -> (r: String)
    ensures
        r@ == escape_chars(s@),
{
    proof {
        reveal_strlit("\\");
    }
    let mut out = String::new();
    let n = s.unicode_len();
    let mut i: usize = 0;
    proof {
        assert(s@.take(0) =~= Seq::<char>::empty());
    }
    while i < n
        invariant
            i <= n,
            n == s@.len(),
            out@ == escape_chars(s@.take(i as int)),
        decreases n - i,
    {
        proof {
            reveal_strlit("\\");
        }
        let c = s.get_char(i);
        if is_reserved(c) {
            out.append("\\");
        }
        let piece = s.substring_char(i, i + 1);
        out.append(piece);
        proof {
            assert(piece@ =~= seq![s@[i as int]]);
            assert(s@.take(i as int + 1) =~= s@.take(i as int).push(s@[i as int]));
            lemma_escape_push(s@.take(i as int), s@[i as int]);
        }
        i += 1;
    }
    proof {
        assert(s@.take(n as int) =~= s@);
    }
    out
}

/// Reads an escaped tag value back: drops the backslash before
/// every reserved character.
pub fn unescape_tag_value(s: &str) -> (r: String)
    ensures
        r@ == unescape_chars(s@),
{
    let mut out = String::new();
    let n = s.unicode_len();
    let mut i: usize = 0;
    proof {
        assert(s@.skip(0) =~= s@);
        assert(out@ + unescape_chars(s@) =~= unescape_chars(s@));
    }
    while i < n
        invariant
            i <= n,
            n == s@.len(),
            unescape_chars(s@) == out@ + unescape_chars(s@.skip(i as int)),
        decreases n - i,
    {
        let ghost rest = s@.skip(i as int);
        proof {
            assert(rest[0] == s@[i as int]);
            if rest.len() >= 2 {
                assert(rest[1] == s@[i as int + 1]);
            }
        }
        let ghost acc = out@;
        let c = s.get_char(i);
        if c == '\\' && i + 1 < n && is_reserved(s.get_char(i + 1)) {
            let piece = s.substring_char(i + 1, i + 2);
            out.append(piece);
            proof {
                assert(piece@ =~= seq![s@[i as int + 1]]);
                assert(rest.skip(2) =~= s@.skip(i as int + 2));
                assert(unescape_chars(rest) == seq![rest[1]] + unescape_chars(rest.skip(2)));
                assert(acc + (seq![rest[1]] + unescape_chars(rest.skip(2))) =~= (acc + seq![
                    rest[1],
                ]) + unescape_chars(rest.skip(2)));
            }
            i += 2;
        } else {
            let piece = s.substring_char(i, i + 1);
            out.append(piece);
            proof {
                assert(piece@ =~= seq![s@[i as int]]);
                assert(rest.skip(1) =~= s@.skip(i as int + 1));
                assert(unescape_chars(rest) == seq![rest[0]] + unescape_chars(rest.skip(1)));
                assert(acc + (seq![rest[0]] + unescape_chars(rest.skip(1))) =~= (acc + seq![
                    rest[0],
                ]) + unescape_chars(rest.skip(1)));
            }
            i += 1;
        }
    }
    proof {
        assert(s@.skip(n as int) =~= Seq::<char>::empty());
        assert(out@ + unescape_chars(s@.skip(n as int)) =~= out@);
    }
    out
}

/// Lexicographic order on character sequences, by code point.
pub open spec fn lex_lt(a: Seq<char>, b: Seq<char>) -> bool
    decreases a.len(),
{
    if b.len() == 0 {
        false
    } else if a.len() == 0 {
        true
    } else if (a[0] as u32) < (b[0] as u32) {
        true
    } else if (a[0] as u32) > (b[0] as u32) {
        false
    } else {
        lex_lt(a.drop_first(), b.drop_first())
    }
}

/// Whether `a` orders strictly before `b` by code point.
pub fn str_lex_lt(a: &str, b: &str) -> (r: bool)
    ensures
        r == lex_lt(a@, b@),
{
    let a_len = a.unicode_len();
    let b_len = b.unicode_len();
    let mut i: usize = 0;
    proof {
        assert(a@.skip(0) =~= a@);
        assert(b@.skip(0) =~= b@);
    }
    while i < a_len && i < b_len
        invariant
            i <= a_len,
            i <= b_len,
            a_len == a@.len(),
            b_len == b@.len(),
            forall|j: int| 0 <= j < i ==> a@[j] == b@[j],
            lex_lt(a@, b@) == lex_lt(a@.skip(i as int), b@.skip(i as int)),
        decreases a_len - i,
    {
        let ca = a.get_char(i);
        let cb = b.get_char(i);
        proof {
            let sa = a@.skip(i as int);
            let sb = b@.skip(i as int);
            assert(sa[0] == a@[i as int]);
            assert(sb[0] == b@[i as int]);
            assert(sa.drop_first() =~= a@.skip(i as int + 1));
            assert(sb.drop_first() =~= b@.skip(i as int + 1));
        }
        if (ca as u32) < (cb as u32) {
            return true;
        }
        if (ca as u32) > (cb as u32) {
            return false;
        }
        i += 1;
    }
    proof {
        let sa = a@.skip(i as int);
        let sb = b@.skip(i as int);
        if i >= b_len {
            assert(sb.len() == 0);
        } else {
            assert(sa.len() == 0);
            assert(sb.len() > 0);
        }
    }
    a_len < b_len
}

/// Inserting a tag into an ordered run: it goes before the first
/// tag whose key orders strictly after its own, so equal keys keep
/// their arrival order.
pub open spec fn insert_sorted(s: Seq<Tag>, t: Tag) -> Seq<Tag>
    decreases s.len(),
{
    if s.len() == 0 {
        seq![t]
    } else if lex_lt(t.key@, s[0].key@) {
        seq![t] + s
    } else {
        seq![s[0]] + insert_sorted(s.drop_first(), t)
    }
}

/// The stable ordering of a tag list by key: each tag inserted in
/// turn at its ordered position.
pub open spec fn sort_tags(s: Seq<Tag>) -> Seq<Tag>
    decreases s.len(),
{
    if s.len() == 0 {
        Seq::empty()
    } else {
        insert_sorted(sort_tags(s.drop_last()), s.last())
    }
}

/// Inserting at the first position whose key orders after the new
/// key realises `insert_sorted`.
proof fn lemma_insert_sorted_at(s: Seq<Tag>, t: Tag, j: int)
    requires
        0 <= j <= s.len(),
        forall|l: int| 0 <= l < j ==> !lex_lt(t.key@, (#[trigger] s[l]).key@),
        j < s.len() ==> lex_lt(t.key@, s[j].key@),
    ensures
        insert_sorted(s, t) == s.insert(j, t),
    decreases s.len(),
{
    if s.len() == 0 {
        assert(insert_sorted(s, t) =~= s.insert(0, t));
    } else if j == 0 {
        assert(insert_sorted(s, t) =~= s.insert(0, t));
    } else {
        assert(!lex_lt(t.key@, s[0].key@));
        lemma_insert_sorted_at(s.drop_first(), t, j - 1);
        assert(insert_sorted(s, t) == seq![s[0]] + s.drop_first().insert(j - 1, t));
        assert(seq![s[0]] + s.drop_first().insert(j - 1, t) =~= s.insert(j, t));
    }
}

/// Copies one tag.
fn clone_tag(t: &Tag) -> (r: Tag)
    ensures
        r == *t,
{
    Tag { key: t.key.clone(), value: t.value.clone() }
}

/// Orders a tag list by key, stably.
pub fn sort_tags_by_key(tags: &Vec<Tag>) -> (r: Vec<Tag>)
    ensures
        r@ == sort_tags(tags@),
{
    let mut out: Vec<Tag> = Vec::new();
    let n = tags.len();
    let mut k: usize = 0;
    proof {
        assert(tags@.take(0) =~= Seq::<Tag>::empty());
    }
    while k < n
        invariant
            k <= n,
            n == tags@.len(),
            out@ == sort_tags(tags@.take(k as int)),
        decreases n - k,
    {
        let t = clone_tag(&tags[k]);
        let ghost before = out@;
        // find the first position whose key orders after the new key
        let out_len = out.len();
        let mut j: usize = 0;
        let mut found = out_len;
        while j < out_len
            invariant
                j <= out_len,
                out_len == out@.len(),
                found == out_len || (found < j && lex_lt(t.key@, out@[found as int].key@)),
                forall|l: int|
                    0 <= l < j && (found == out_len || l < found) ==> !lex_lt(
                        t.key@,
                        (#[trigger] out@[l]).key@,
                    ),
            decreases out_len - j,
        {
            if found == out_len && str_lex_lt(t.key.as_str(), out[j].key.as_str()) {
                found = j;
            }
            j += 1;
        }
        proof {
            lemma_insert_sorted_at(before, t, found as int);
        }
        out.insert(found, t);
        proof {
            assert(tags@.take(k as int + 1).drop_last() =~= tags@.take(k as int));
            assert(tags@.take(k as int + 1).last() == tags@[k as int]);
        }
        k += 1;
    }
    proof {
        assert(tags@.take(n as int) =~= tags@);
    }
    out
}

/// One rendered tag: a leading comma, the key, an equals sign, and
/// the escaped value.
pub open spec fn render_tag(t: Tag) -> Seq<char> {
    seq![','] + t.key@ + seq!['='] + escape_chars(t.value@)
}

/// The rendered tag list, in the order given.
pub open spec fn render_tags(s: Seq<Tag>) -> Seq<char>
    decreases s.len(),
{
    if s.len() == 0 {
        Seq::empty()
    } else {
        render_tag(s[0]) + render_tags(s.drop_first())
    }
}

/// Rendering a tag list extended by one tag appends that tag's
/// rendering.
proof fn lemma_render_tags_push(s: Seq<Tag>, t: Tag)
    ensures
        render_tags(s.push(t)) == render_tags(s) + render_tag(t),
    decreases s.len(),
{
    if s.len() == 0 {
        reveal_with_fuel(render_tags, 2);
        assert(s.push(t)[0] == t);
        assert(s.push(t).drop_first() =~= Seq::<Tag>::empty());
        assert(render_tags(s.push(t)) =~= render_tag(t));
        assert(render_tags(s) + render_tag(t) =~= render_tag(t));
    } else {
        assert(s.push(t)[0] == s[0]);
        assert(s.push(t).drop_first() =~= s.drop_first().push(t));
        lemma_render_tags_push(s.drop_first(), t);
        assert(render_tag(s[0]) + (render_tags(s.drop_first()) + render_tag(t)) =~= (render_tag(
            s[0],
        ) + render_tags(s.drop_first())) + render_tag(t));
    }
}

/// The decimal text of a signed timestamp.
pub open spec fn dec_i64(n: int) -> Seq<char> {
    if n < 0 {
        seq!['-'] + dec_of(-n)
    } else {
        dec_of(n)
    }
}

/// Formats a signed integer in decimal.
pub fn i64_dec(n: i64) -> (r: String)
    ensures
        r@ == dec_i64(n as int),
{
    proof {
        reveal_strlit("-");
    }
    if n >= 0 {
        u64_dec(n as u64)
    } else {
        let magnitude: u64 = if n == i64::MIN {
            9223372036854775808u64
        } else {
            (0 - n) as u64
        };
        let mut out = String::from_str("-");
        out.append(u64_dec(magnitude).as_str());
        proof {
            assert(out@ =~= seq!['-'] + dec_of(-(n as int)));
        }
        out
    }
}

/// The encoded line of a measurement: the series name, the rendered
/// tags ordered by key, a space, the single field as `key=value`, a
/// space, and the timestamp.
pub open spec fn spec_encode_line(m: Measurement) -> Seq<char> {
    m.series@ + render_tags(sort_tags(m.tags@)) + seq![' '] + m.field_key@ + seq!['=']
        + spec_value_text(m.field_value) + seq![' '] + dec_i64(m.timestamp as int)
}

/// Encodes one measurement as its wire line.
pub fn encode_line(m: &Measurement) -> (r: String)
    requires
        m.field_value.wf(),
    ensures
        r@ == spec_encode_line(*m),
{
    proof {
        reveal_strlit(" ");
        reveal_strlit("=");
        reveal_strlit(",");
    }
    let mut out = m.series.clone();
    let sorted = sort_tags_by_key(&m.tags);
    let n = sorted.len();
    let mut i: usize = 0;
    proof {
        assert(sorted@.take(0) =~= Seq::<Tag>::empty());
        assert(render_tags(sorted@.take(0)) =~= Seq::<char>::empty());
        assert(out@ =~= m.series@ + render_tags(sorted@.take(0)));
    }
    while i < n
        invariant
            i <= n,
            n == sorted@.len(),
            out@ == m.series@ + render_tags(sorted@.take(i as int)),
        decreases n - i,
    {
        proof {
            reveal_strlit(",");
            reveal_strlit("=");
        }
        out.append(",");
        out.append(sorted[i].key.as_str());
        out.append("=");
        let escaped = escape_tag_value(sorted[i].value.as_str());
        out.append(escaped.as_str());
        proof {
            assert(sorted@.take(i as int + 1) =~= sorted@.take(i as int).push(sorted@[i as int]));
            lemma_render_tags_push(sorted@.take(i as int), sorted@[i as int]);
            assert(out@ =~= m.series@ + render_tags(sorted@.take(i as int + 1)));
        }
        i += 1;
    }
    proof {
        assert(sorted@.take(n as int) =~= sorted@);
    }
    out.append(" ");
    out.append(m.field_key.as_str());
    out.append("=");
    let value_text = m.field_value.text();
    out.append(value_text.as_str());
    out.append(" ");
    let ts_text = i64_dec(m.timestamp);
    out.append(ts_text.as_str());
    proof {
        assert(out@ =~= spec_encode_line(*m));
    }
    out
}

/// The lines of one bucket: one per measurement, in arrival order.
pub open spec fn bucket_lines(b: Bucket) -> Seq<Seq<char>> {
    b.measurements@.map_values(|m: Measurement| spec_encode_line(m))
}

/// The lines of the whole aggregation: bucket by bucket in
/// ascending timestamp order, measurement by measurement within a
/// bucket.
pub open spec fn spec_lines(buckets: Seq<Bucket>) -> Seq<Seq<char>>
    decreases buckets.len(),
{
    if buckets.len() == 0 {
        Seq::empty()
    } else {
        bucket_lines(buckets[0]) + spec_lines(buckets.drop_first())
    }
}

/// The lines of a bucket list extended by one bucket.
proof fn lemma_spec_lines_push(s: Seq<Bucket>, b: Bucket)
    ensures
        spec_lines(s.push(b)) == spec_lines(s) + bucket_lines(b),
    decreases s.len(),
{
    if s.len() == 0 {
        reveal_with_fuel(spec_lines, 2);
        assert(s.push(b)[0] == b);
        assert(s.push(b).drop_first() =~= Seq::<Bucket>::empty());
        assert(spec_lines(s.push(b)) =~= bucket_lines(b));
        assert(spec_lines(s) + bucket_lines(b) =~= bucket_lines(b));
    } else {
        assert(s.push(b)[0] == s[0]);
        assert(s.push(b).drop_first() =~= s.drop_first().push(b));
        lemma_spec_lines_push(s.drop_first(), b);
        assert(bucket_lines(s[0]) + (spec_lines(s.drop_first()) + bucket_lines(b)) =~= (
        bucket_lines(s[0]) + spec_lines(s.drop_first())) + bucket_lines(b));
    }
}

/// Whether every measurement of every bucket carries a well-formed
/// field value.
pub open spec fn all_values_wf(buckets: Seq<Bucket>) -> bool {
    forall|j: int, i: int|
        0 <= j < buckets.len() && 0 <= i < buckets[j].measurements@.len()
            ==> (#[trigger] buckets[j].measurements@[i]).field_value.wf()
}

/// Encodes the whole aggregation: one line per measurement, bucket
/// by bucket in ascending timestamp order.
pub fn encode_lines(agg: &Aggregation) -> (r: Vec<String>)
    requires
        all_values_wf(agg.buckets@),
    ensures
        r@.map_values(|s: String| s@) == spec_lines(agg.buckets@),
{
    let mut out: Vec<String> = Vec::new();
    let nb = agg.buckets.len();
    let mut j: usize = 0;
    proof {
        assert(agg.buckets@.take(0) =~= Seq::<Bucket>::empty());
        assert(out@.map_values(|s: String| s@) =~= spec_lines(agg.buckets@.take(0)));
    }
    while j < nb
        invariant
            j <= nb,
            nb == agg.buckets@.len(),
            all_values_wf(agg.buckets@),
            out@.map_values(|s: String| s@) == spec_lines(agg.buckets@.take(j as int)),
        decreases nb - j,
    {
        let nm = agg.buckets[j].measurements.len();
        let mut i: usize = 0;
        while i < nm
            invariant
                i <= nm,
                j < nb,
                nb == agg.buckets@.len(),
                all_values_wf(agg.buckets@),
                nm == agg.buckets@[j as int].measurements@.len(),
                out@.map_values(|s: String| s@) == spec_lines(agg.buckets@.take(j as int))
                    + bucket_lines(agg.buckets@[j as int]).take(i as int),
            decreases nm - i,
        {
            let ghost prev = out@;
            let line = encode_line(&agg.buckets[j].measurements[i]);
            out.push(line);
            proof {
                let views = |s: String| s@;
                let ms = agg.buckets@[j as int].measurements@;
                assert(out@.map_values(views) =~= prev.map_values(views).push(
                    spec_encode_line(ms[i as int]),
                ));
                assert(bucket_lines(agg.buckets@[j as int]).take(i as int + 1) =~= bucket_lines(
                    agg.buckets@[j as int],
                ).take(i as int).push(spec_encode_line(ms[i as int])));
            }
            i += 1;
        }
        proof {
            assert(bucket_lines(agg.buckets@[j as int]).take(nm as int) =~= bucket_lines(
                agg.buckets@[j as int],
            ));
            assert(agg.buckets@.take(j as int + 1) =~= agg.buckets@.take(j as int).push(
                agg.buckets@[j as int],
            ));
            lemma_spec_lines_push(agg.buckets@.take(j as int), agg.buckets@[j as int]);
        }
        j += 1;
    }
    proof {
        assert(agg.buckets@.take(nb as int) =~= agg.buckets@);
    }
    out
}

} // verus!
