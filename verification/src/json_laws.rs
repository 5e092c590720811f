//! Printing tells JSON values apart.

use crate::digest::lemma_hex_digit;
use crate::json::{
    all_sound, array_texts, escaped, escaped_char, json_text, keys_ascend, lemma_with_member,
    lookup, member, member_texts, members_sound, number_char, pretty_at, pretty_text, quoted, sound,
    with_member, JsonV,
};
use crate::text::{integer, join, lemma_decimal_injective, lemma_decimal_is_digits, text_le};
use vstd::prelude::*;

verus! {

// ---------------------------------------------------------------------------
// Strings
// ---------------------------------------------------------------------------

proof fn lemma_escaped_char(c: char, d: char, x: Seq<char>, y: Seq<char>)
    requires
        escaped_char(c) + x == escaped_char(d) + y,
    ensures
        c == d,
        x == y,
{
    let a = escaped_char(c) + x;
    let b = escaped_char(d) + y;
    assert(a[0] == escaped_char(c)[0] && b[0] == escaped_char(d)[0]);
    if escaped_char(c).len() >= 2 && escaped_char(d).len() >= 2 {
        assert(a[1] == escaped_char(c)[1] && b[1] == escaped_char(d)[1]);
        if escaped_char(c).len() == 6 && escaped_char(d).len() == 6 {
            assert(a[4] == escaped_char(c)[4] && b[4] == escaped_char(d)[4]);
            assert(a[5] == escaped_char(c)[5] && b[5] == escaped_char(d)[5]);
            lemma_hex_digit(c as int / 16, d as int / 16);
            lemma_hex_digit(c as int % 16, d as int % 16);
            assert(c as int == d as int);
        }
    }
    assert(c == d);
    let n = escaped_char(c).len() as int;
    assert(a.skip(n) =~= x);
    assert(b.skip(n) =~= y);
}

/// The end of a string is where its escaped text ends.
proof fn lemma_escaped(s: Seq<char>, t: Seq<char>, x: Seq<char>, y: Seq<char>)
    requires
        escaped(s) + seq!['"'] + x == escaped(t) + seq!['"'] + y,
    ensures
        s == t,
        x == y,
    decreases s.len(),
{
    let a = escaped(s) + seq!['"'] + x;
    let b = escaped(t) + seq!['"'] + y;
    if s.len() == 0 && t.len() == 0 {
        assert(a.skip(1) =~= x);
        assert(b.skip(1) =~= y);
        assert(s =~= t);
    } else if s.len() == 0 {
        assert(a[0] == '"');
        assert(b[0] == escaped_char(t[0])[0]);
    } else if t.len() == 0 {
        assert(b[0] == '"');
        assert(a[0] == escaped_char(s[0])[0]);
    } else {
        let p = escaped(s.drop_first()) + seq!['"'] + x;
        let q = escaped(t.drop_first()) + seq!['"'] + y;
        assert(a =~= escaped_char(s[0]) + p);
        assert(b =~= escaped_char(t[0]) + q);
        lemma_escaped_char(s[0], t[0], p, q);
        lemma_escaped(s.drop_first(), t.drop_first(), x, y);
        assert(s =~= seq![s[0]] + s.drop_first());
        assert(t =~= seq![t[0]] + t.drop_first());
    }
}

proof fn lemma_quoted(s: Seq<char>, t: Seq<char>, x: Seq<char>, y: Seq<char>)
    requires
        quoted(s) + x == quoted(t) + y,
    ensures
        s == t,
        x == y,
{
    let p = escaped(s) + seq!['"'] + x;
    let q = escaped(t) + seq!['"'] + y;
    assert((quoted(s) + x).skip(1) =~= p);
    assert((quoted(t) + y).skip(1) =~= q);
    lemma_escaped(s, t, x, y);
}

// ---------------------------------------------------------------------------
// Numbers
// ---------------------------------------------------------------------------

/// What may follow a value in a printed array or object.
spec fn ends_value(x: Seq<char>) -> bool {
    x.len() == 0 || x[0] == ',' || x[0] == ']' || x[0] == '}'
}

spec fn number_chars(s: Seq<char>) -> bool {
    forall|i: int| 0 <= i < s.len() ==> number_char(#[trigger] s[i])
}

proof fn lemma_number_ends(p: Seq<char>, q: Seq<char>, x: Seq<char>, y: Seq<char>)
    requires
        number_chars(p),
        number_chars(q),
        ends_value(x),
        ends_value(y),
        p + x == q + y,
    ensures
        p == q,
        x == y,
{
    let a = p + x;
    let b = q + y;
    if p.len() < q.len() {
        let n = p.len() as int;
        assert(b[n] == q[n]);
        assert(a[n] == x[0]);
    } else if q.len() < p.len() {
        let n = q.len() as int;
        assert(a[n] == p[n]);
        assert(b[n] == y[0]);
    }
    assert(a.take(p.len() as int) =~= p);
    assert(b.take(p.len() as int) =~= q);
    assert(a.skip(p.len() as int) =~= x);
    assert(b.skip(p.len() as int) =~= y);
}

proof fn lemma_integer(i: int)
    ensures
        integer(i).len() > 0,
        number_chars(integer(i)),
        !integer(i).contains('.'),
        !integer(i).contains('e'),
        i < 0 <==> integer(i)[0] == '-',
{
    let n = if i < 0 {
        -i
    } else {
        i
    };
    lemma_decimal_is_digits(n as nat);
    let d = crate::text::decimal(n as nat);
    assert forall|k: int| 0 <= k < integer(i).len() implies number_char(#[trigger] integer(i)[k])
        && integer(i)[k] != '.' && integer(i)[k] != 'e' by {
        if i < 0 {
            if k > 0 {
                assert(integer(i)[k] == d[k - 1]);
            }
        } else {
            assert(integer(i)[k] == d[k]);
        }
    }
    if i >= 0 {
        assert('0' <= d[0]);
    }
}

/// Distinct integers have distinct printed forms.
proof fn lemma_integer_injective(i: int, k: int)
    requires
        integer(i) == integer(k),
    ensures
        i == k,
{
    lemma_integer(i);
    lemma_integer(k);
    if i < 0 {
        assert(integer(i).skip(1) =~= crate::text::decimal((-i) as nat));
        assert(integer(k).skip(1) =~= crate::text::decimal((-k) as nat));
        lemma_decimal_injective((-i) as nat, (-k) as nat);
    } else {
        lemma_decimal_injective(i as nat, k as nat);
    }
}

// ---------------------------------------------------------------------------
// Arrays and objects
// ---------------------------------------------------------------------------

/// The printed items from the `i`-th on, each but the first behind a comma.
spec fn tail_text(parts: Seq<Seq<char>>, i: int) -> Seq<char>
    decreases parts.len() - i,
{
    if i < 0 || i >= parts.len() {
        Seq::empty()
    } else if i == 0 {
        parts[0] + tail_text(parts, 1)
    } else {
        seq![','] + parts[i] + tail_text(parts, i + 1)
    }
}

proof fn lemma_tail_text(parts: Seq<Seq<char>>, i: int)
    requires
        0 <= i < parts.len(),
    ensures
        join(parts, ","@) == join(parts.take(i + 1), ","@) + tail_text(parts, i + 1),
    decreases parts.len() - i,
{
    reveal_strlit(",");
    if i + 1 == parts.len() {
        assert(parts.take(i + 1) =~= parts);
        assert(join(parts, ","@) =~= join(parts, ","@) + tail_text(parts, i + 1));
    } else {
        lemma_tail_text(parts, i + 1);
        assert(parts.take(i + 2).drop_last() =~= parts.take(i + 1));
        assert(join(parts.take(i + 2), ","@) + tail_text(parts, i + 2) =~= join(
            parts.take(i + 1),
            ","@,
        ) + (seq![','] + parts[i + 1] + tail_text(parts, i + 2)));
    }
}

proof fn lemma_join_tail(parts: Seq<Seq<char>>)
    ensures
        join(parts, ","@) == tail_text(parts, 0),
{
    if parts.len() > 0 {
        lemma_tail_text(parts, 0);
        assert(parts.take(1)[0] == parts[0]);
    }
}

/// The first character of a printed value is none that ends a value.
proof fn lemma_first(j: JsonV)
    requires
        sound(j),
    ensures
        json_text(j).len() > 0,
        match j {
            JsonV::Null => json_text(j)[0] == 'n',
            JsonV::Bool(b) => json_text(j)[0] == (if b {
                't'
            } else {
                'f'
            }),
            JsonV::Int(_) => number_char(json_text(j)[0]),
            JsonV::Float(_) => number_char(json_text(j)[0]),
            JsonV::Text(_) => json_text(j)[0] == '"',
            JsonV::Array(_) => json_text(j)[0] == '[',
            JsonV::Object(_) => json_text(j)[0] == '{',
        },
{
    reveal_strlit("null");
    reveal_strlit("true");
    reveal_strlit("false");
    reveal_strlit("[");
    reveal_strlit("{");
    if let JsonV::Int(i) = j {
        lemma_integer(i);
    }
    if let JsonV::Float(t) = j {
        if t.len() == 0 {
            assert(!t.contains('.') && !t.contains('e'));
        }
        assert(number_char(t[0]));
    }
}

/// A printed value followed by what may follow one can be read in one way only.
proof fn lemma_value(a: JsonV, b: JsonV, x: Seq<char>, y: Seq<char>)
    requires
        sound(a),
        sound(b),
        ends_value(x),
        ends_value(y),
        json_text(a) + x == json_text(b) + y,
    ensures
        a == b,
        x == y,
    decreases a, 0int,
{
    let p = json_text(a) + x;
    let q = json_text(b) + y;
    lemma_first(a);
    lemma_first(b);
    assert(p[0] == json_text(a)[0] && q[0] == json_text(b)[0]);
    match (a, b) {
        (JsonV::Null, JsonV::Null) => {
            lemma_same_start(json_text(a), x, y);
        },
        (JsonV::Bool(_), JsonV::Bool(_)) => {
            lemma_same_start(json_text(a), x, y);
        },
        (JsonV::Int(i), JsonV::Int(k)) => {
            lemma_integer(i);
            lemma_integer(k);
            lemma_number_ends(json_text(a), json_text(b), x, y);
            lemma_integer_injective(i, k);
        },
        (JsonV::Int(i), JsonV::Float(_)) => {
            lemma_integer(i);
            lemma_number_ends(json_text(a), json_text(b), x, y);
        },
        (JsonV::Float(_), JsonV::Int(k)) => {
            lemma_integer(k);
            lemma_number_ends(json_text(a), json_text(b), x, y);
        },
        (JsonV::Float(_), JsonV::Float(_)) => {
            lemma_number_ends(json_text(a), json_text(b), x, y);
        },
        (JsonV::Text(s), JsonV::Text(t)) => {
            lemma_quoted(s, t, x, y);
        },
        (JsonV::Array(xs), JsonV::Array(ys)) => {
            reveal_strlit("[");
            reveal_strlit("]");
            let s = array_texts(xs);
            let t = array_texts(ys);
            lemma_join_tail(s);
            lemma_join_tail(t);
            assert(p.skip(1) =~= rest_text(s, 0, ']', x));
            assert(q.skip(1) =~= rest_text(t, 0, ']', y));
            assert(xs.take(0) =~= ys.take(0));
            lemma_items(xs, ys, 0, x, y);
        },
        (JsonV::Object(ms), JsonV::Object(ns)) => {
            reveal_strlit("{");
            reveal_strlit("}");
            let s = member_texts(ms);
            let t = member_texts(ns);
            lemma_join_tail(s);
            lemma_join_tail(t);
            assert(p.skip(1) =~= rest_text(s, 0, '}', x));
            assert(q.skip(1) =~= rest_text(t, 0, '}', y));
            assert(ms.take(0) =~= ns.take(0));
            lemma_members(ms, ns, 0, x, y);
        },
        _ => {},
    }
}

proof fn lemma_same_start(s: Seq<char>, x: Seq<char>, y: Seq<char>)
    requires
        s + x == s + y,
    ensures
        x == y,
{
    assert((s + x).skip(s.len() as int) =~= x);
    assert((s + y).skip(s.len() as int) =~= y);
}

/// A printed list from its `i`-th item on, with its closing bracket and what
/// follows.
spec fn rest_text(parts: Seq<Seq<char>>, i: int, end: char, x: Seq<char>) -> Seq<char> {
    tail_text(parts, i) + seq![end] + x
}

proof fn lemma_rest_start(parts: Seq<Seq<char>>, i: int, end: char, x: Seq<char>)
    requires
        0 <= i <= parts.len(),
        i < parts.len() ==> parts[i].len() > 0,
        end == ']' || end == '}',
    ensures
        rest_text(parts, i, end, x).len() > 0,
        rest_text(parts, i, end, x)[0] == (if i == parts.len() {
            end
        } else if i == 0 {
            parts[0][0]
        } else {
            ','
        }),
        i > 0 ==> ends_value(rest_text(parts, i, end, x)),
        i == parts.len() ==> ends_value(rest_text(parts, i, end, x)),
{
}

proof fn lemma_rest_step(
    s: Seq<Seq<char>>,
    t: Seq<Seq<char>>,
    i: int,
    end: char,
    x: Seq<char>,
    y: Seq<char>,
)
    requires
        0 <= i < s.len(),
        i < t.len(),
        rest_text(s, i, end, x) == rest_text(t, i, end, y),
    ensures
        s[i] + rest_text(s, i + 1, end, x) == t[i] + rest_text(t, i + 1, end, y),
{
    let p = rest_text(s, i, end, x);
    let q = rest_text(t, i, end, y);
    let u = rest_text(s, i + 1, end, x);
    let v = rest_text(t, i + 1, end, y);
    if i == 0 {
        assert(p =~= s[i] + u);
        assert(q =~= t[i] + v);
    } else {
        assert(p.skip(1) =~= s[i] + u);
        assert(q.skip(1) =~= t[i] + v);
    }
}

proof fn lemma_items(xs: Seq<JsonV>, ys: Seq<JsonV>, i: int, x: Seq<char>, y: Seq<char>)
    requires
        all_sound(xs),
        all_sound(ys),
        0 <= i <= xs.len(),
        i <= ys.len(),
        xs.take(i) == ys.take(i),
        rest_text(array_texts(xs), i, ']', x) == rest_text(array_texts(ys), i, ']', y),
    ensures
        xs == ys,
        x == y,
    decreases xs, xs.len() - i,
{
    let s = array_texts(xs);
    let t = array_texts(ys);
    if i < xs.len() {
        assert(sound(xs[i]));
        lemma_first(xs[i]);
        assert(s[i] == json_text(xs[i]));
    }
    if i < ys.len() {
        assert(sound(ys[i]));
        lemma_first(ys[i]);
        assert(t[i] == json_text(ys[i]));
    }
    lemma_rest_start(s, i, ']', x);
    lemma_rest_start(t, i, ']', y);
    if i == xs.len() && i == ys.len() {
        assert(tail_text(s, i) =~= tail_text(t, i));
        lemma_same_start(tail_text(s, i) + seq![']'], x, y);
        assert(xs.take(i) =~= xs && ys.take(i) =~= ys);
    } else if i < xs.len() && i < ys.len() {
        lemma_rest_step(s, t, i, ']', x, y);
        if i + 1 < xs.len() {
            assert(sound(xs[i + 1]));
            lemma_first(xs[i + 1]);
            assert(s[i + 1] == json_text(xs[i + 1]));
        }
        if i + 1 < ys.len() {
            assert(sound(ys[i + 1]));
            lemma_first(ys[i + 1]);
            assert(t[i + 1] == json_text(ys[i + 1]));
        }
        lemma_rest_start(s, i + 1, ']', x);
        lemma_rest_start(t, i + 1, ']', y);
        lemma_value(xs[i], ys[i], rest_text(s, i + 1, ']', x), rest_text(t, i + 1, ']', y));
        assert(xs.take(i + 1) =~= xs.take(i).push(xs[i]));
        assert(ys.take(i + 1) =~= ys.take(i).push(ys[i]));
        lemma_items(xs, ys, i + 1, x, y);
    }
}

/// A printed member starts with the quote of its name.
proof fn lemma_member_text(ms: Seq<(Seq<char>, JsonV)>, i: int)
    requires
        0 <= i < ms.len(),
    ensures
        member_texts(ms)[i].len() > 0,
        member_texts(ms)[i][0] == '"',
        member_texts(ms)[i] == quoted(ms[i].0) + ":"@ + json_text(ms[i].1),
{
    let text = quoted(ms[i].0) + ":"@ + json_text(ms[i].1);
    assert(member_texts(ms)[i] == text);
    assert(quoted(ms[i].0)[0] == '"');
}

proof fn lemma_members(
    ms: Seq<(Seq<char>, JsonV)>,
    ns: Seq<(Seq<char>, JsonV)>,
    i: int,
    x: Seq<char>,
    y: Seq<char>,
)
    requires
        members_sound(ms),
        members_sound(ns),
        0 <= i <= ms.len(),
        i <= ns.len(),
        ms.take(i) == ns.take(i),
        rest_text(member_texts(ms), i, '}', x) == rest_text(member_texts(ns), i, '}', y),
    ensures
        ms == ns,
        x == y,
    decreases ms, ms.len() - i,
{
    let s = member_texts(ms);
    let t = member_texts(ns);
    if i < ms.len() {
        lemma_member_text(ms, i);
    }
    if i < ns.len() {
        lemma_member_text(ns, i);
    }
    lemma_rest_start(s, i, '}', x);
    lemma_rest_start(t, i, '}', y);
    if i == ms.len() && i == ns.len() {
        assert(tail_text(s, i) =~= tail_text(t, i));
        lemma_same_start(tail_text(s, i) + seq!['}'], x, y);
        assert(ms.take(i) =~= ms && ns.take(i) =~= ns);
    } else if i < ms.len() && i < ns.len() {
        lemma_rest_step(s, t, i, '}', x, y);
        if i + 1 < ms.len() {
            lemma_member_text(ms, i + 1);
        }
        if i + 1 < ns.len() {
            lemma_member_text(ns, i + 1);
        }
        lemma_rest_start(s, i + 1, '}', x);
        lemma_rest_start(t, i + 1, '}', y);
        let u = rest_text(s, i + 1, '}', x);
        let v = rest_text(t, i + 1, '}', y);
        let f = json_text(ms[i].1) + u;
        let g = json_text(ns[i].1) + v;
        assert(s[i] + u =~= quoted(ms[i].0) + (":"@ + f));
        assert(t[i] + v =~= quoted(ns[i].0) + (":"@ + g));
        lemma_quoted(ms[i].0, ns[i].0, ":"@ + f, ":"@ + g);
        lemma_same_start(":"@, f, g);
        assert(sound(ms[i].1) && sound(ns[i].1));
        lemma_value(ms[i].1, ns[i].1, u, v);
        assert(ms[i] == ns[i]);
        assert(ms.take(i + 1) =~= ms.take(i).push(ms[i]));
        assert(ns.take(i + 1) =~= ns.take(i).push(ns[i]));
        lemma_members(ms, ns, i + 1, x, y);
    }
}

/// Two values print the same only where they are the same.
pub proof fn law_printing_is_injective(a: JsonV, b: JsonV)
    requires
        sound(a),
        sound(b),
    ensures
        json_text(a) == json_text(b) <==> a == b,
{
    if json_text(a) == json_text(b) {
        let none = Seq::<char>::empty();
        assert(json_text(a) + none =~= json_text(b) + none);
        lemma_value(a, b, none, none);
    }
}

// ---------------------------------------------------------------------------
// Members
// ---------------------------------------------------------------------------

/// Where a write of `key` goes: behind the members whose keys are not above it.
spec fn slot<V>(members: Seq<(Seq<char>, V)>, key: Seq<char>) -> int
    decreases members.len(),
{
    if members.len() == 0 || text_le(members.last().0, key) {
        members.len() as int
    } else {
        slot(members.drop_last(), key)
    }
}

proof fn lemma_slot<V>(members: Seq<(Seq<char>, V)>, key: Seq<char>)
    ensures
        0 <= slot(members, key) <= members.len(),
        forall|k: int|
            slot(members, key) <= k < members.len() ==> !text_le((#[trigger] members[k]).0, key),
        slot(members, key) > 0 ==> text_le(members[slot(members, key) - 1].0, key),
    decreases members.len(),
{
    if members.len() > 0 && !text_le(members.last().0, key) {
        let init = members.drop_last();
        lemma_slot(init, key);
        let j = slot(members, key);
        assert forall|k: int| j <= k < members.len() implies !text_le(
            (#[trigger] members[k]).0,
            key,
        ) by {
            if k < init.len() {
                assert(init[k] == members[k]);
            }
        }
        if j > 0 {
            assert(init[j - 1] == members[j - 1]);
        }
    }
}

/// A write keeps the keys in order.
pub proof fn law_with_member_ascends<V>(members: Seq<(Seq<char>, V)>, key: Seq<char>, value: V)
    requires
        keys_ascend(members),
    ensures
        keys_ascend(with_member(members, key, value)),
{
    lemma_slot(members, key);
    lemma_with_member(members, key, value, slot(members, key));
}

pub proof fn lemma_with_member_sound(
    members: Seq<(Seq<char>, JsonV)>,
    key: Seq<char>,
    value: JsonV,
)
    requires
        members_sound(members),
        sound(value),
    ensures
        members_sound(with_member(members, key, value)),
    decreases members.len(),
{
    let out = with_member(members, key, value);
    if members.len() > 0 {
        let init = members.drop_last();
        assert forall|i: int| 0 <= i < init.len() implies sound((#[trigger] init[i]).1) by {
            assert(sound(members[i].1));
        }
        lemma_with_member_sound(init, key, value);
        let rest = with_member(init, key, value);
        assert(sound(members[members.len() - 1].1));
        assert forall|i: int| 0 <= i < out.len() implies sound((#[trigger] out[i]).1) by {
            if text_le(members.last().0, key) && members.last().0 != key {
                if i < members.len() {
                    assert(sound(members[i].1));
                }
            } else if members.last().0 == key {
                if i < init.len() {
                    assert(sound(init[i].1));
                }
            } else if i < rest.len() {
                assert(sound(rest[i].1));
            }
        }
    }
}

pub proof fn lemma_lookup_sound(members: Seq<(Seq<char>, JsonV)>, key: Seq<char>)
    requires
        members_sound(members),
    ensures
        lookup(members, key) matches Some(v) ==> sound(v),
    decreases members.len(),
{
    if members.len() > 0 {
        assert(sound(members[0].1));
        let rest = members.drop_first();
        assert forall|i: int| 0 <= i < rest.len() implies sound((#[trigger] rest[i]).1) by {
            assert(sound(members[i + 1].1));
        }
        lemma_lookup_sound(rest, key);
    }
}

/// A member of a sound value is sound.
pub proof fn lemma_member_sound(j: Option<JsonV>, key: Seq<char>)
    requires
        j matches Some(v) ==> sound(v),
    ensures
        member(j, key) matches Some(v) ==> sound(v),
{
    if let Some(JsonV::Object(members)) = j {
        lemma_lookup_sound(members, key);
    }
}

// ---------------------------------------------------------------------------
// The printed form
// ---------------------------------------------------------------------------

/// A value is printed by what it is: null, a boolean and a number plainly, a text
/// in quotes, a list in brackets and an object in braces, with commas between the
/// parts and a colon behind each name.
pub proof fn law_values_are_printed(
    i: int,
    f: Seq<char>,
    s: Seq<char>,
    xs: Seq<JsonV>,
    ms: Seq<(Seq<char>, JsonV)>,
)
    ensures
        json_text(JsonV::Null) == "null"@,
        json_text(JsonV::Bool(true)) == "true"@,
        json_text(JsonV::Bool(false)) == "false"@,
        json_text(JsonV::Int(i)) == crate::text::integer(i),
        json_text(JsonV::Float(f)) == f,
        json_text(JsonV::Text(s)) == seq!['"'] + crate::json::escaped(s) + seq!['"'],
        json_text(JsonV::Array(xs)) == seq!['['] + crate::text::join(
            xs.map_values(|x: JsonV| json_text(x)),
            seq![','],
        ) + seq![']'],
        json_text(JsonV::Object(ms)) == seq!['{'] + crate::text::join(
            ms.map_values(
                |m: (Seq<char>, JsonV)|
                    seq!['"'] + crate::json::escaped(m.0) + seq!['"'] + seq![':'] + json_text(m.1),
            ),
            seq![','],
        ) + seq!['}'],
{
    reveal_strlit("[");
    reveal_strlit("]");
    reveal_strlit("{");
    reveal_strlit("}");
    reveal_strlit(",");
    reveal_strlit(":");
    assert("["@ =~= seq!['[']);
    assert("]"@ =~= seq![']']);
    assert("{"@ =~= seq!['{']);
    assert("}"@ =~= seq!['}']);
    assert(","@ =~= seq![',']);
    assert(":"@ =~= seq![':']);
    assert(crate::json::array_texts(xs) =~= xs.map_values(|x: JsonV| json_text(x)));
    assert(crate::json::member_texts(ms) =~= ms.map_values(
        |m: (Seq<char>, JsonV)|
            seq!['"'] + crate::json::escaped(m.0) + seq!['"'] + seq![':'] + json_text(m.1),
    ));
}

/// A text is escaped character by character: quotes, backslashes and control
/// characters are, and all else stays.
pub proof fn law_texts_are_escaped(a: Seq<char>, b: Seq<char>, c: char)
    ensures
        crate::json::escaped(a + b) == crate::json::escaped(a) + crate::json::escaped(b),
        crate::json::escaped(Seq::<char>::empty()).len() == 0,
        c as int >= 32 && c != '"' && c != '\\' ==> crate::json::escaped(seq![c]) == seq![c],
        c == '"' || c == '\\' ==> crate::json::escaped(seq![c]) == seq!['\\', c],
        c == '\n' ==> crate::json::escaped(seq![c]) == seq!['\\', 'n'],
        c == '\r' ==> crate::json::escaped(seq![c]) == seq!['\\', 'r'],
        c == '\t' ==> crate::json::escaped(seq![c]) == seq!['\\', 't'],
        c as int == 8 ==> crate::json::escaped(seq![c]) == seq!['\\', 'b'],
        c as int == 12 ==> crate::json::escaped(seq![c]) == seq!['\\', 'f'],
        (c as int) < 32 && c != '\n' && c != '\r' && c != '\t' && c as int != 8 && c as int != 12
            ==> crate::json::escaped(seq![c]) == seq![
            '\\',
            'u',
            '0',
            '0',
            crate::vector::laws::small_hex(c as int / 16),
            crate::vector::laws::small_hex(c as int % 16),
        ],
    decreases a.len(),
{
    reveal_with_fuel(crate::json::escaped, 2);
    assert(seq![c].drop_first() =~= Seq::<char>::empty());
    assert(crate::json::escaped(seq![c]) =~= crate::json::escaped_char(c));
    if a.len() == 0 {
        assert(a + b =~= b);
        assert(crate::json::escaped(a) + crate::json::escaped(b) =~= crate::json::escaped(b));
    } else {
        law_texts_are_escaped(a.drop_first(), b, c);
        assert((a + b).drop_first() =~= a.drop_first() + b);
        assert(crate::json::escaped(a + b) =~= crate::json::escaped(a) + crate::json::escaped(b));
    }
}

/// The indentation of a level: two spaces.
pub open spec fn indentation(depth: nat) -> Seq<char> {
    Seq::new(2 * depth, |i: int| ' ')
}

/// The indented form puts each item and each member on a line of its own, two
/// spaces further in than what holds them; empty lists and objects, and all other
/// values, are printed as usual.
pub proof fn law_values_are_indented(
    xs: Seq<JsonV>,
    ms: Seq<(Seq<char>, JsonV)>,
    j: JsonV,
    depth: nat,
)
    ensures
        pretty_text(j) == pretty_at(j, 0),
        !(j is Array) && !(j is Object) ==> pretty_at(j, depth) == json_text(j),
        xs.len() == 0 ==> pretty_at(JsonV::Array(xs), depth) == seq!['[', ']'],
        ms.len() == 0 ==> pretty_at(JsonV::Object(ms), depth) == seq!['{', '}'],
        xs.len() > 0 ==> pretty_at(JsonV::Array(xs), depth) == seq!['[', '\n'] + indentation(
            depth + 1,
        ) + crate::text::join(
            xs.map_values(|x: JsonV| pretty_at(x, depth + 1)),
            seq![',', '\n'] + indentation(depth + 1),
        ) + seq!['\n'] + indentation(depth) + seq![']'],
        ms.len() > 0 ==> pretty_at(JsonV::Object(ms), depth) == seq!['{', '\n'] + indentation(
            depth + 1,
        ) + crate::text::join(
            ms.map_values(
                |m: (Seq<char>, JsonV)|
                    seq!['"'] + crate::json::escaped(m.0) + seq!['"'] + seq![':', ' '] + pretty_at(
                        m.1,
                        depth + 1,
                    ),
            ),
            seq![',', '\n'] + indentation(depth + 1),
        ) + seq!['\n'] + indentation(depth) + seq!['}'],
{
    reveal_strlit("[");
    reveal_strlit("]");
    reveal_strlit("{");
    reveal_strlit("}");
    reveal_strlit("\n");
    reveal_strlit(",\n");
    reveal_strlit(": ");
    assert(crate::json::indent(depth + 1) =~= indentation(depth + 1));
    assert(crate::json::indent(depth) =~= indentation(depth));
    assert(",\n"@ =~= seq![',', '\n']);
    assert(": "@ =~= seq![':', ' ']);
    assert("["@ + "\n"@ =~= seq!['[', '\n']);
    assert("{"@ + "\n"@ =~= seq!['{', '\n']);
    assert("\n"@ =~= seq!['\n']);
    assert("["@ + "]"@ =~= seq!['[', ']']);
    assert("{"@ + "}"@ =~= seq!['{', '}']);
    assert("]"@ =~= seq![']']);
    assert("}"@ =~= seq!['}']);
    assert(crate::json::pretty_items(xs, depth + 1) =~= xs.map_values(
        |x: JsonV| pretty_at(x, depth + 1),
    ));
    assert(crate::json::pretty_members(ms, depth + 1) =~= ms.map_values(
        |m: (Seq<char>, JsonV)|
            seq!['"'] + crate::json::escaped(m.0) + seq!['"'] + seq![':', ' '] + pretty_at(
                m.1,
                depth + 1,
            ),
    ));
}

} // verus!
