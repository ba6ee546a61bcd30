//! Text: comparison, order, joining and number rendering.

use vstd::prelude::*;
use vstd::relations::{sorted_by, total_ordering};
use vstd::utf8::{encode_utf8, encode_utf8_decode_utf8};

verus! {

/// The texts that a sequence of strings holds.
pub open spec fn texts(strings: Seq<String>) -> Seq<Seq<char>> {
    strings.map_values(|s: String| s@)
}

pub proof fn lemma_texts_push(strings: Seq<String>, s: String)
    ensures
        texts(strings.push(s)) == texts(strings).push(s@),
{
    assert(texts(strings.push(s)) =~= texts(strings).push(s@));
}

/// Two texts are the same when their UTF-8 encodings are.
pub proof fn lemma_same_bytes(a: Seq<char>, b: Seq<char>)
    ensures
        encode_utf8(a) == encode_utf8(b) <==> a == b,
{
    encode_utf8_decode_utf8(a);
    encode_utf8_decode_utf8(b);
}

/// Whether two texts are equal.
pub fn same_text(a: &str, b: &str) -> (same: bool)
    ensures
        same == (a@ == b@),
{
    let x = a.as_bytes();
    let y = b.as_bytes();
    proof {
        lemma_same_bytes(a@, b@);
    }
    if x.len() != y.len() {
        return false;
    }
    let mut i: usize = 0;
    while i < x.len()
        invariant
            i <= x.len() == y.len(),
            x@ == encode_utf8(a@),
            y@ == encode_utf8(b@),
            encode_utf8(a@) == encode_utf8(b@) <==> a@ == b@,
            forall|j: int| 0 <= j < i ==> x@[j] == y@[j],
        decreases x.len() - i,
    {
        if x[i] != y[i] {
            return false;
        }
        i += 1;
    }
    assert(x@ =~= y@);
    true
}

/// Lexicographic order on bytes.
pub open spec fn bytes_leq(a: Seq<u8>, b: Seq<u8>) -> bool
    decreases a.len(),
{
    if a.len() == 0 {
        true
    } else if b.len() == 0 {
        false
    } else if a[0] != b[0] {
        a[0] < b[0]
    } else {
        bytes_leq(a.drop_first(), b.drop_first())
    }
}

/// The order of texts: byte by byte, as their UTF-8 encodings compare.
pub open spec fn text_leq(a: Seq<char>, b: Seq<char>) -> bool {
    bytes_leq(encode_utf8(a), encode_utf8(b))
}

/// Strictly before in the order of texts.
pub open spec fn text_less(a: Seq<char>, b: Seq<char>) -> bool {
    text_leq(a, b) && a != b
}

proof fn lemma_bytes_leq_reflexive(a: Seq<u8>)
    ensures
        bytes_leq(a, a),
    decreases a.len(),
{
    if a.len() > 0 {
        lemma_bytes_leq_reflexive(a.drop_first());
    }
}

proof fn lemma_bytes_leq_antisymmetric(a: Seq<u8>, b: Seq<u8>)
    requires
        bytes_leq(a, b),
        bytes_leq(b, a),
    ensures
        a == b,
    decreases a.len(),
{
    if a.len() > 0 && b.len() > 0 {
        lemma_bytes_leq_antisymmetric(a.drop_first(), b.drop_first());
        assert(a =~= seq![a[0]] + a.drop_first());
        assert(b =~= seq![b[0]] + b.drop_first());
    } else {
        assert(a =~= b);
    }
}

proof fn lemma_bytes_leq_transitive(a: Seq<u8>, b: Seq<u8>, c: Seq<u8>)
    requires
        bytes_leq(a, b),
        bytes_leq(b, c),
    ensures
        bytes_leq(a, c),
    decreases a.len(),
{
    if a.len() > 0 && b.len() > 0 && c.len() > 0 && a[0] == b[0] && b[0] == c[0] {
        lemma_bytes_leq_transitive(a.drop_first(), b.drop_first(), c.drop_first());
    }
}

proof fn lemma_bytes_leq_total(a: Seq<u8>, b: Seq<u8>)
    ensures
        bytes_leq(a, b) || bytes_leq(b, a),
    decreases a.len(),
{
    if a.len() > 0 && b.len() > 0 && a[0] == b[0] {
        lemma_bytes_leq_total(a.drop_first(), b.drop_first());
    }
}

/// The order of texts as a relation, for `Seq::sort_by`.
pub open spec fn text_order() -> spec_fn(Seq<char>, Seq<char>) -> bool {
    |a: Seq<char>, b: Seq<char>| text_leq(a, b)
}

/// Texts are totally ordered.
pub proof fn lemma_text_order_total()
    ensures
        total_ordering(text_order()),
{
    let r = text_order();
    assert forall|a: Seq<char>| #[trigger] r(a, a) by {
        lemma_bytes_leq_reflexive(encode_utf8(a));
    }
    assert forall|a: Seq<char>, b: Seq<char>| #[trigger] r(a, b) && #[trigger] r(b, a) implies a == b by {
        lemma_bytes_leq_antisymmetric(encode_utf8(a), encode_utf8(b));
        lemma_same_bytes(a, b);
    }
    assert forall|a: Seq<char>, b: Seq<char>, c: Seq<char>| #[trigger] r(a, b) && #[trigger] r(b, c) implies r(a, c) by {
        lemma_bytes_leq_transitive(encode_utf8(a), encode_utf8(b), encode_utf8(c));
    }
    assert forall|a: Seq<char>, b: Seq<char>| #[trigger] r(a, b) || #[trigger] r(b, a) by {
        lemma_bytes_leq_total(encode_utf8(a), encode_utf8(b));
    }
}

/// Whether `a` comes before `b`, or is equal to it.
pub fn not_after(a: &str, b: &str) -> (r: bool)
    ensures
        r == text_leq(a@, b@),
{
    let x = a.as_bytes();
    let y = b.as_bytes();
    let mut i: usize = 0;
    assert(x@.skip(0) =~= x@);
    assert(y@.skip(0) =~= y@);
    while i < x.len()
        invariant
            i <= x.len(),
            i <= y.len(),
            x@ == encode_utf8(a@),
            y@ == encode_utf8(b@),
            text_leq(a@, b@) == bytes_leq(x@.skip(i as int), y@.skip(i as int)),
        decreases x.len() - i,
    {
        if i >= y.len() {
            return false;
        }
        if x[i] != y[i] {
            return x[i] < y[i];
        }
        assert(x@.skip(i as int).drop_first() =~= x@.skip(i + 1));
        assert(y@.skip(i as int).drop_first() =~= y@.skip(i + 1));
        i += 1;
    }
    true
}

/// Whether `a` comes strictly before `b`.
pub fn before(a: &str, b: &str) -> (r: bool)
    ensures
        r == text_less(a@, b@),
{
    not_after(a, b) && !same_text(a, b)
}

/// The same texts in ascending order, each as often as it occurs.
pub open spec fn sorted_texts(s: Seq<Seq<char>>) -> Seq<Seq<char>> {
    s.sort_by(text_order())
}

/// Sorting forgets the order in which the texts came.
pub proof fn lemma_sorted_same_contents(a: Seq<Seq<char>>, b: Seq<Seq<char>>)
    requires
        a.to_multiset() == b.to_multiset(),
    ensures
        sorted_texts(a) == sorted_texts(b),
{
    lemma_text_order_total();
    a.lemma_sort_by_ensures(text_order());
    b.lemma_sort_by_ensures(text_order());
    vstd::seq_lib::lemma_sorted_unique(sorted_texts(a), sorted_texts(b), text_order());
}

/// The position at which a text goes into a sorted list.
fn insertion_point(sorted: &Vec<String>, item: &str) -> (at: usize)
    requires
        sorted_by(texts(sorted@), text_order()),
    ensures
        at <= sorted.len(),
        forall|j: int| 0 <= j < at ==> text_leq(#[trigger] texts(sorted@)[j], item@),
        forall|j: int| at <= j < sorted.len() ==> text_leq(item@, #[trigger] texts(sorted@)[j]),
{
    let mut at: usize = 0;
    proof {
        lemma_text_order_total();
    }
    while at < sorted.len() && not_after(sorted[at].as_str(), item)
        invariant
            at <= sorted.len(),
            forall|j: int| 0 <= j < at ==> text_leq(#[trigger] texts(sorted@)[j], item@),
        decreases sorted.len() - at,
    {
        at += 1;
    }
    proof {
        if at < sorted.len() {
            let all = texts(sorted@);
            let r = text_order();
            assert(all[at as int] == sorted@[at as int]@);
            assert(!r(all[at as int], item@));
            assert(r(item@, all[at as int]));
            assert forall|j: int| at <= j < sorted.len() implies text_leq(item@, #[trigger] all[j]) by {
                if j > at {
                    assert(r(all[at as int], all[j]));
                    assert(r(item@, all[j]));
                }
            }
        }
    }
    at
}

/// Sorts strings.
pub fn sort_texts(items: Vec<String>) -> (sorted: Vec<String>)
    ensures
        texts(sorted@) == sorted_texts(texts(items@)),
{
    let mut sorted: Vec<String> = Vec::new();
    let ghost all = items@;
    proof {
        lemma_text_order_total();
        assert(texts(all).take(0) =~= texts(sorted@));
    }
    for item in it: items
        invariant
            it.seq() == all,
            sorted_by(texts(sorted@), text_order()),
            texts(sorted@).to_multiset() == texts(all).take(it.index() as int).to_multiset(),
            total_ordering(text_order()),
    {
        let at = insertion_point(&sorted, item.as_str());
        let ghost before = texts(sorted@);
        let ghost k = it.index() as int;
        let ghost word = item@;
        sorted.insert(at, item);
        proof {
            let r = text_order();
            let after = texts(sorted@);
            assert(after =~= before.insert(at as int, word));
            assert forall|i: int, j: int| 0 <= i < j < after.len() implies #[trigger] r(after[i], after[j]) by {
                if i == at {
                    assert(after[j] == before[j - 1]);
                } else if j == at {
                    assert(after[i] == before[i]);
                } else {
                    let bi = if i < at { i } else { i - 1 };
                    let bj = if j < at { j } else { j - 1 };
                    assert(after[i] == before[bi] && after[j] == before[bj]);
                    assert(r(before[bi], before[bj]));
                }
            }
            broadcast use vstd::seq_lib::group_to_multiset_ensures;
            assert(texts(all)[k] == word);
            assert(texts(all).take(k + 1) =~= texts(all).take(k).push(word));
        }
    }
    proof {
        assert(texts(all).take(all.len() as int) =~= texts(all));
        texts(all).lemma_sort_by_ensures(text_order());
        vstd::seq_lib::lemma_sorted_unique(texts(sorted@), sorted_texts(texts(all)), text_order());
    }
    sorted
}

/// Texts one after the other, with a separator between neighbours.
pub open spec fn joined(parts: Seq<Seq<char>>, separator: Seq<char>) -> Seq<char>
    decreases parts.len(),
{
    if parts.len() == 0 {
        Seq::empty()
    } else if parts.len() == 1 {
        parts[0]
    } else {
        joined(parts.drop_last(), separator) + separator + parts.last()
    }
}

/// Joins strings with a separator.
pub fn join(parts: &Vec<String>, separator: &str) -> (text: String)
    ensures
        text@ == joined(texts(parts@), separator@),
{
    let mut text = String::new();
    let mut i: usize = 0;
    assert(texts(parts@).take(0) =~= Seq::empty());
    while i < parts.len()
        invariant
            i <= parts.len(),
            text@ == joined(texts(parts@).take(i as int), separator@),
        decreases parts.len() - i,
    {
        if i > 0 {
            text.append(separator);
        }
        text.append(parts[i].as_str());
        proof {
            let so_far = texts(parts@).take(i as int);
            let next = texts(parts@).take(i + 1);
            assert(next.drop_last() =~= so_far);
            if i == 0 {
                assert(text@ =~= next[0]);
            }
        }
        i += 1;
    }
    assert(texts(parts@).take(parts.len() as int) =~= texts(parts@));
    text
}

/// The character of a digit below 16, as in lower-case hexadecimal.
pub open spec fn digit_char(d: nat) -> char {
    if d < 10 {
        (48 + d) as char
    } else {
        (87 + d) as char
    }
}

/// A number in decimal notation.
pub open spec fn decimal_text(n: nat) -> Seq<char>
    decreases n,
{
    if n < 10 {
        seq![digit_char(n)]
    } else {
        decimal_text(n / 10).push(digit_char(n % 10))
    }
}

/// The last `width` digits of a number in lower-case hexadecimal.
pub open spec fn hex_text(n: nat, width: nat) -> Seq<char>
    decreases width,
{
    if width == 0 {
        Seq::empty()
    } else {
        hex_text(n / 16, (width - 1) as nat).push(digit_char(n % 16))
    }
}

/// A text, filled up with zeros in front to a width.
pub open spec fn zero_padded(digits: Seq<char>, width: nat) -> Seq<char>
    decreases width - digits.len(),
{
    if digits.len() >= width {
        digits
    } else {
        zero_padded(seq!['0'] + digits, width)
    }
}

fn digit(d: u8) -> (s: &'static str)
    requires
        d < 16,
    ensures
        s@ == seq![digit_char(d as nat)],
{
    proof {
        reveal_strlit("0");
        reveal_strlit("1");
        reveal_strlit("2");
        reveal_strlit("3");
        reveal_strlit("4");
        reveal_strlit("5");
        reveal_strlit("6");
        reveal_strlit("7");
        reveal_strlit("8");
        reveal_strlit("9");
        reveal_strlit("a");
        reveal_strlit("b");
        reveal_strlit("c");
        reveal_strlit("d");
        reveal_strlit("e");
        reveal_strlit("f");
    }
    match d {
        0 => "0",
        1 => "1",
        2 => "2",
        3 => "3",
        4 => "4",
        5 => "5",
        6 => "6",
        7 => "7",
        8 => "8",
        9 => "9",
        10 => "a",
        11 => "b",
        12 => "c",
        13 => "d",
        14 => "e",
        _ => "f",
    }
}

/// A number in decimal notation.
pub fn decimal(n: u64) -> (s: String)
    ensures
        s@ == decimal_text(n as nat),
    decreases n,
{
    if n < 10 {
        digit(n as u8).to_owned()
    } else {
        let mut s = decimal(n / 10);
        s.append(digit((n % 10) as u8));
        s
    }
}

/// The last `width` digits of a number in lower-case hexadecimal.
pub fn hex(n: u128, width: usize) -> (s: String)
    ensures
        s@ == hex_text(n as nat, width as nat),
    decreases width,
{
    if width == 0 {
        String::new()
    } else {
        let mut s = hex(n / 16, width - 1);
        s.append(digit((n % 16) as u8));
        s
    }
}

/// A number in decimal notation, with zeros in front up to a width.
pub fn decimal_padded(n: u64, width: usize) -> (s: String)
    ensures
        s@ == zero_padded(decimal_text(n as nat), width as nat),
{
    let mut s = decimal(n);
    let mut len = s.as_str().unicode_len();
    proof {
        reveal_strlit("0");
    }
    while len < width
        invariant
            len == s@.len(),
            "0"@ == seq!['0'],
            zero_padded(s@, width as nat) == zero_padded(decimal_text(n as nat), width as nat),
        decreases width - len,
    {
        let ghost digits = s@;
        let mut longer = "0".to_owned();
        longer.append(s.as_str());
        s = longer;
        assert(s@ =~= seq!['0'] + digits);
        len += 1;
    }
    s
}

/// How the standard library writes a text for debugging: in double quotes, with
/// escapes.
pub uninterp spec fn quoted_text(s: Seq<char>) -> Seq<char>;

/// Writes a text with the `Debug` format of `str`. The contract claims only that
/// the result depends on the text alone.
#[verifier::external_body]
fn quote(s: &str) -> (r: String)
    ensures
        r@ == quoted_text(s@),
{
    format!("{:?}", s)
}

/// The debugging form of a list of texts.
pub open spec fn quoted_list(items: Seq<Seq<char>>) -> Seq<char> {
    "["@ + joined(items.map_values(|s: Seq<char>| quoted_text(s)), ", "@) + "]"@
}

/// Writes a list of strings for debugging.
pub fn quote_list(items: &Vec<String>) -> (r: String)
    ensures
        r@ == quoted_list(texts(items@)),
{
    let ghost wanted = texts(items@).map_values(|s: Seq<char>| quoted_text(s));
    let mut parts: Vec<String> = Vec::new();
    let mut i: usize = 0;
    assert(texts(parts@) =~= wanted.take(0));
    while i < items.len()
        invariant
            i <= items.len(),
            wanted == texts(items@).map_values(|s: Seq<char>| quoted_text(s)),
            texts(parts@) == wanted.take(i as int),
        decreases items.len() - i,
    {
        let part = quote(items[i].as_str());
        proof {
            lemma_texts_push(parts@, part);
            assert(wanted.take(i + 1) =~= wanted.take(i as int).push(wanted[i as int]));
        }
        parts.push(part);
        i += 1;
    }
    assert(wanted.take(items.len() as int) =~= wanted);
    let mut r = "[".to_owned();
    r.append(join(&parts, ", ").as_str());
    r.append("]");
    r
}

/// A copy of a list of strings.
pub fn copy_texts(items: &Vec<String>) -> (copy: Vec<String>)
    ensures
        copy@ == items@,
{
    let mut copy: Vec<String> = Vec::new();
    let mut i: usize = 0;
    while i < items.len()
        invariant
            i <= items.len(),
            copy@ == items@.take(i as int),
        decreases items.len() - i,
    {
        copy.push(items[i].clone());
        i += 1;
        assert(items@.take(i as int) =~= items@.take(i - 1).push(items@[i - 1]));
    }
    assert(items@.take(items.len() as int) =~= items@);
    copy
}

/// Whether a list of strings holds a text.
pub fn holds_text(items: &Vec<String>, item: &str) -> (found: bool)
    ensures
        found == texts(items@).contains(item@),
{
    let mut i: usize = 0;
    while i < items.len()
        invariant
            i <= items.len(),
            forall|j: int| 0 <= j < i ==> #[trigger] texts(items@)[j] != item@,
        decreases items.len() - i,
    {
        if same_text(items[i].as_str(), item) {
            assert(texts(items@)[i as int] == item@);
            return true;
        }
        i += 1;
    }
    false
}

/// Bytes are compared from the front: a sequence comes before those that begin with it,
/// and otherwise the first difference decides, the smaller byte first.
pub proof fn law_first_difference_decides(
    front: Seq<u8>,
    x: u8,
    y: u8,
    a: Seq<u8>,
    b: Seq<u8>,
)
    ensures
        bytes_leq(front, front + a),
        a.len() > 0 ==> !bytes_leq(front + a, front),
        x < y ==> bytes_leq(front.push(x) + a, front.push(y) + b) && !bytes_leq(
            front.push(y) + b,
            front.push(x) + a,
        ),
    decreases front.len(),
{
    if front.len() == 0 {
        assert(front + a =~= a);
        assert((front.push(x) + a)[0] == x);
        assert((front.push(y) + b)[0] == y);
    } else {
        let rest = front.drop_first();
        law_first_difference_decides(rest, x, y, a, b);
        assert((front + a).drop_first() =~= rest + a);
        assert((front.push(x) + a).drop_first() =~= rest.push(x) + a);
        assert((front.push(y) + b).drop_first() =~= rest.push(y) + b);
        assert((front + a)[0] == front[0]);
        assert((front.push(x) + a)[0] == front[0]);
        assert((front.push(y) + b)[0] == front[0]);
    }
}

/// Texts are ordered as their UTF-8 bytes are, and two texts that neither comes before the
/// other are the same.
pub proof fn law_texts_are_ordered(a: Seq<char>, b: Seq<char>, c: Seq<char>)
    ensures
        text_leq(a, b) == bytes_leq(encode_utf8(a), encode_utf8(b)),
        text_leq(a, a),
        text_leq(a, b) && text_leq(b, a) ==> a == b,
        text_leq(a, b) && text_leq(b, c) ==> text_leq(a, c),
        text_leq(a, b) || text_leq(b, a),
        text_less(a, b) <==> !text_leq(b, a),
{
    lemma_text_order_total();
    let r = text_order();
    assert(r(a, a));
    assert(r(a, b) && r(b, a) ==> a == b);
    assert(r(a, b) && r(b, c) ==> r(a, c));
    assert(r(a, b) || r(b, a));
}

/// Sorting keeps every text, as often as it occurs, and puts them in ascending order.
pub proof fn law_sorting_keeps_every_text(s: Seq<Seq<char>>)
    ensures
        sorted_texts(s).to_multiset() == s.to_multiset(),
        sorted_texts(s).len() == s.len(),
        forall|i: int, j: int|
            0 <= i < j < sorted_texts(s).len() ==> text_leq(
                #[trigger] sorted_texts(s)[i],
                #[trigger] sorted_texts(s)[j],
            ),
{
    lemma_text_order_total();
    s.lemma_sort_by_ensures(text_order());
    broadcast use vstd::seq_lib::group_to_multiset_ensures;

    let t = sorted_texts(s);
    let r = text_order();
    assert forall|i: int, j: int| 0 <= i < j < t.len() implies text_leq(
        #[trigger] t[i],
        #[trigger] t[j],
    ) by {
        assert(r(t[i], t[j]));
    }
    assert(t.len() == t.to_multiset().len());
    assert(s.len() == s.to_multiset().len());
}

/// Joined texts are the parts with the separator between neighbours and nowhere else: one
/// part is itself, and two lists joined have the separator between them.
pub proof fn law_joining(
    a: Seq<Seq<char>>,
    b: Seq<Seq<char>>,
    part: Seq<char>,
    separator: Seq<char>,
)
    ensures
        joined(Seq::empty(), separator) == Seq::<char>::empty(),
        joined(seq![part], separator) == part,
        a.len() > 0 && b.len() > 0 ==> joined(a + b, separator) == joined(a, separator) + separator
            + joined(b, separator),
    decreases b.len(),
{
    if a.len() > 0 && b.len() > 0 {
        assert((a + b).drop_last() =~= a + b.drop_last());
        assert((a + b).last() == b.last());
        if b.len() == 1 {
            assert(a + b.drop_last() =~= a);
            assert(joined(b, separator) == b[0]);
        } else {
            law_joining(a, b.drop_last(), part, separator);
            assert(joined(a + b, separator) =~= joined(a, separator) + separator + joined(
                b,
                separator,
            ));
        }
    }
}

/// The number that digits stand for, in a base.
pub open spec fn digits_value(digits: Seq<char>, base: nat) -> nat
    decreases digits.len(),
{
    if digits.len() == 0 {
        0
    } else {
        let c = digits.last() as nat;
        base * digits_value(digits.drop_last(), base) + (if c >= 97 {
            (c - 87) as nat
        } else {
            (c - 48) as nat
        })
    }
}

/// A number reads back from its digits, which are decimal and begin with a zero for zero
/// alone.
pub proof fn law_decimals_read_back(n: nat)
    ensures
        digits_value(decimal_text(n), 10) == n,
        decimal_text(n).len() > 0,
        forall|i: int|
            0 <= i < decimal_text(n).len() ==> '0' <= #[trigger] decimal_text(n)[i] <= '9',
        n > 0 ==> decimal_text(n)[0] != '0',
    decreases n,
{
    let t = decimal_text(n);
    if n < 10 {
        assert(t.drop_last() =~= Seq::empty());
        assert(digits_value(t.drop_last(), 10) == 0);
    } else {
        law_decimals_read_back(n / 10);
        assert(t.drop_last() =~= decimal_text(n / 10));
        assert(t[0] == decimal_text(n / 10)[0]);
        assert forall|i: int| 0 <= i < t.len() implies '0' <= #[trigger] t[i] <= '9' by {
            if i < t.len() - 1 {
                assert(t[i] == decimal_text(n / 10)[i]);
            }
        }
    }
}

/// A hexadecimal text has the width that was asked for, and a number that fits reads back
/// from it; of one that does not, the lowest digits are there.
pub proof fn law_hexadecimals_read_back(n: nat, width: nat)
    ensures
        hex_text(n, width).len() == width,
        digits_value(hex_text(n, width), 16) == n % vstd::arithmetic::power::pow(16, width) as nat,
        forall|i: int|
            0 <= i < width ==> ('0' <= #[trigger] hex_text(n, width)[i] <= '9') || ('a' <= hex_text(
                n,
                width,
            )[i] <= 'f'),
    decreases width,
{
    let t = hex_text(n, width);
    reveal(vstd::arithmetic::power::pow);
    if width > 0 {
        let w = (width - 1) as nat;
        law_hexadecimals_read_back(n / 16, w);
        assert(t.drop_last() =~= hex_text(n / 16, w));
        assert forall|i: int| 0 <= i < width implies ('0' <= #[trigger] t[i] <= '9') || ('a' <= t[i]
            <= 'f') by {
            if i < w {
                assert(t[i] == hex_text(n / 16, w)[i]);
            }
        }
        let p = vstd::arithmetic::power::pow(16, w);
        vstd::arithmetic::power::lemma_pow_positive(16, w);
        vstd::arithmetic::div_mod::lemma_breakdown(n as int, 16, p);
        assert(vstd::arithmetic::power::pow(16, width) == 16 * p);
    }
}

/// Filling up puts zeros in front of a text that is too short, and nothing else.
pub proof fn law_filling_up(digits: Seq<char>, width: nat)
    ensures
        zero_padded(digits, width).len() == (if digits.len() >= width {
            digits.len()
        } else {
            width
        }),
        zero_padded(digits, width).skip(zero_padded(digits, width).len() - digits.len()) == digits,
        forall|i: int|
            0 <= i < zero_padded(digits, width).len() - digits.len() ==> #[trigger] zero_padded(
                digits,
                width,
            )[i] == '0',
    decreases width - digits.len(),
{
    let t = zero_padded(digits, width);
    if digits.len() >= width {
        assert(t.skip(0) =~= digits);
    } else {
        let more = seq!['0'] + digits;
        law_filling_up(more, width);
        let n = t.len() - more.len();
        assert(t.skip(n) =~= more);
        assert(t.skip(n + 1) =~= digits) by {
            assert(t.skip(n).skip(1) =~= t.skip(n + 1));
            assert(more.skip(1) =~= digits);
        }
        assert(t[n] == t.skip(n)[0]);
    }
}

/// Sixteen hexadecimal digits hold every 64-bit number.
pub proof fn lemma_sixteen_digits()
    ensures
        vstd::arithmetic::power::pow(16, 16) == 0x1_0000_0000_0000_0000,
{
    reveal(vstd::arithmetic::power::pow);
    assert(vstd::arithmetic::power::pow(16, 0) == 0x1);
    assert(vstd::arithmetic::power::pow(16, 1) == 0x10);
    assert(vstd::arithmetic::power::pow(16, 2) == 0x100);
    assert(vstd::arithmetic::power::pow(16, 3) == 0x1000);
    assert(vstd::arithmetic::power::pow(16, 4) == 0x10000);
    assert(vstd::arithmetic::power::pow(16, 5) == 0x100000);
    assert(vstd::arithmetic::power::pow(16, 6) == 0x1000000);
    assert(vstd::arithmetic::power::pow(16, 7) == 0x10000000);
    assert(vstd::arithmetic::power::pow(16, 8) == 0x100000000);
    assert(vstd::arithmetic::power::pow(16, 9) == 0x1000000000);
    assert(vstd::arithmetic::power::pow(16, 10) == 0x10000000000);
    assert(vstd::arithmetic::power::pow(16, 11) == 0x100000000000);
    assert(vstd::arithmetic::power::pow(16, 12) == 0x1000000000000);
    assert(vstd::arithmetic::power::pow(16, 13) == 0x10000000000000);
    assert(vstd::arithmetic::power::pow(16, 14) == 0x100000000000000);
    assert(vstd::arithmetic::power::pow(16, 15) == 0x1000000000000000);
    assert(vstd::arithmetic::power::pow(16, 16) == 0x10000000000000000);
}

/// Sorting leaves what is sorted as it is.
pub proof fn lemma_sorted_already(s: Seq<Seq<char>>)
    requires
        forall|i: int, j: int|
            0 <= i < j < s.len() ==> text_leq(#[trigger] s[i], #[trigger] s[j]),
    ensures
        sorted_texts(s) == s,
{
    lemma_text_order_total();
    s.lemma_sort_by_ensures(text_order());
    let r = text_order();
    assert forall|i: int, j: int| 0 <= i < j < s.len() implies #[trigger] r(s[i], s[j]) by {
        assert(text_leq(s[i], s[j]));
    }
    vstd::seq_lib::lemma_sorted_unique(sorted_texts(s), s, text_order());
}

/// A list is shown with its items in quotes, in order, with commas between them.
pub proof fn law_lists_are_shown(items: Seq<Seq<char>>, item: Seq<char>)
    ensures
        quoted_list(Seq::empty()) == "["@ + "]"@,
        quoted_list(seq![item]) == "["@ + quoted_text(item) + "]"@,
        items.len() > 0 ==> quoted_list(items.push(item)) == quoted_list(items).drop_last() + ", "@
            + quoted_text(item) + "]"@,
{
    reveal_strlit("[");
    reveal_strlit("]");
    let quote = |s: Seq<char>| quoted_text(s);
    let all = items.push(item).map_values(quote);
    assert(Seq::<Seq<char>>::empty().map_values(quote).len() == 0);
    assert("["@ + Seq::<char>::empty() + "]"@ =~= "["@ + "]"@);
    assert(seq![item].map_values(quote)[0] == quoted_text(item));
    if items.len() > 0 {
        assert(all.drop_last() =~= items.map_values(quote));
        assert(all.last() == quoted_text(item));
        let inner = joined(items.map_values(quote), ", "@);
        assert(quoted_list(items).drop_last() =~= "["@ + inner);
        assert(quoted_list(items.push(item)) =~= "["@ + inner + ", "@ + quoted_text(item) + "]"@);
    }
}

} // verus!
