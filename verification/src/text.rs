//! Text building blocks shared by the PDF and TeX emitters: decimal and hex
//! rendering, joining, byte-wise string order and a stable ordering of keys.

use vstd::prelude::*;

verus! {

/// `String::push` appends one character at the end of the string.
pub assume_specification[ String::push ](s: &mut String, ch: char)
    ensures
        final(s)@ == old(s)@.push(ch),
;

/// The Unicode lowercase mapping of a string, as computed by `str::to_lowercase`.
pub uninterp spec fn lowercase(s: Seq<char>) -> Seq<char>;

/// Calls `str::to_lowercase`; the result is the Unicode lowercase mapping of `s`,
/// which depends on `s` alone.
#[verifier::external_body]
pub(crate) fn to_lowercase(s: &str) -> (r: String)
    ensures
        r@ == lowercase(s@),
{
    s.to_lowercase()
}

// ---------------------------------------------------------------------------
// Decimal and hexadecimal rendering
// ---------------------------------------------------------------------------

/// The ASCII digit for a value below ten.
pub open spec fn digit_char(d: nat) -> char {
    ((48 + d) as u8) as char
}

/// Decimal rendering of a natural number, without sign or leading zeros.
pub open spec fn decimal(n: nat) -> Seq<char>
    decreases n,
{
    if n < 10 {
        seq![digit_char(n)]
    } else {
        decimal(n / 10).push(digit_char(n % 10))
    }
}

/// A decimal rendering has at least one digit, and at least two from ten on.
pub proof fn lemma_decimal_len(n: nat)
    ensures
        decimal(n).len() >= 1,
        n >= 10 ==> decimal(n).len() >= 2,
    decreases n,
{
    if n >= 10 {
        lemma_decimal_len(n / 10);
    }
}

/// Distinct numbers have distinct decimal renderings.
pub proof fn lemma_decimal_injective(a: nat, b: nat)
    requires
        decimal(a) == decimal(b),
    ensures
        a == b,
    decreases a,
{
    lemma_decimal_len(a);
    lemma_decimal_len(b);
    if a < 10 && b < 10 {
        assert(decimal(a)[0] == digit_char(a));
        assert(decimal(b)[0] == digit_char(b));
        assert((48 + a) as u8 == 48 + a);
        assert((48 + b) as u8 == 48 + b);
    } else if a >= 10 && b >= 10 {
        assert(decimal(a).last() == digit_char(a % 10));
        assert(decimal(b).last() == digit_char(b % 10));
        assert((48 + a % 10) as u8 == 48 + a % 10);
        assert((48 + b % 10) as u8 == 48 + b % 10);
        assert(decimal(a).drop_last() =~= decimal(a / 10));
        assert(decimal(b).drop_last() =~= decimal(b / 10));
        lemma_decimal_injective(a / 10, b / 10);
    }
}

/// Appends the decimal rendering of `n` (what `format!("{}", n)` prints).
pub fn push_decimal(s: &mut String, n: u64)
    ensures
        final(s)@ == old(s)@ + decimal(n as nat),
    decreases n,
{
    if n >= 10 {
        push_decimal(s, n / 10);
    }
    let d: u8 = (n % 10) as u8;
    s.push((48u8 + d) as char);
    proof {
        assert(old(s)@ + decimal(n as nat) =~= final(s)@) by {
            if n >= 10 {
                assert(decimal(n as nat) == decimal((n / 10) as nat).push(digit_char((n % 10) as nat)));
            }
        }
    }
}

/// The decimal rendering of `n` as a new string.
pub fn decimal_string(n: u64) -> (r: String)
    ensures
        r@ == decimal(n as nat),
{
    let mut s = String::new();
    push_decimal(&mut s, n);
    proof {
        assert(s@ =~= decimal(n as nat));
    }
    s
}

/// The uppercase hexadecimal digit for a value below sixteen.
pub open spec fn hex_digit(d: nat) -> char {
    if d < 10 {
        ((48 + d) as u8) as char
    } else {
        ((55 + d) as u8) as char
    }
}

/// Two uppercase hex digits of a byte (what `format!("{:02X}", b)` prints).
pub open spec fn hex_byte(b: u8) -> Seq<char> {
    seq![hex_digit((b / 16) as nat), hex_digit((b % 16) as nat)]
}

/// Hex rendering of a byte sequence, two digits per byte.
pub open spec fn hex_bytes(data: Seq<u8>) -> Seq<char>
    decreases data.len(),
{
    if data.len() == 0 {
        Seq::empty()
    } else {
        hex_bytes(data.drop_last()) + hex_byte(data.last())
    }
}

fn hex_digit_char(d: u8) -> (c: char)
    requires
        d < 16,
    ensures
        c == hex_digit(d as nat),
{
    if d < 10 {
        (48u8 + d) as char
    } else {
        (55u8 + d) as char
    }
}

/// Appends two uppercase hex digits per byte of `data`.
pub fn push_hex_bytes(s: &mut String, data: &[u8])
    ensures
        final(s)@ == old(s)@ + hex_bytes(data@),
{
    let n = data.len();
    let mut i: usize = 0;
    while i < n
        invariant
            n == data@.len(),
            i <= n,
            s@ == old(s)@ + hex_bytes(data@.take(i as int)),
        decreases n - i,
    {
        let b = data[i];
        s.push(hex_digit_char(b / 16));
        s.push(hex_digit_char(b % 16));
        proof {
            assert(data@.take(i + 1).drop_last() =~= data@.take(i as int));
            assert(data@.take(i + 1).last() == b);
        }
        i = i + 1;
    }
    proof {
        assert(data@.take(n as int) =~= data@);
    }
}

// ---------------------------------------------------------------------------
// Concatenation and joining
// ---------------------------------------------------------------------------

/// The concatenation of all strings of `parts`, in order.
pub open spec fn concat_all(parts: Seq<Seq<char>>) -> Seq<char>
    decreases parts.len(),
{
    if parts.len() == 0 {
        Seq::empty()
    } else {
        concat_all(parts.drop_last()) + parts.last()
    }
}

/// The strings of `parts` with `sep` between each two neighbours (`[T]::join`).
pub open spec fn join(parts: Seq<Seq<char>>, sep: Seq<char>) -> Seq<char>
    decreases parts.len(),
{
    if parts.len() == 0 {
        Seq::empty()
    } else if parts.len() == 1 {
        parts[0]
    } else {
        join(parts.drop_last(), sep) + sep + parts.last()
    }
}

/// The views of a vector of strings.
pub open spec fn views(v: Seq<String>) -> Seq<Seq<char>> {
    v.map_values(|s: String| s@)
}

/// Joins `parts` with `sep` between neighbours (what `parts.join(sep)` returns).
pub fn join_strings(parts: &[String], sep: &str) -> (r: String)
    ensures
        r@ == join(views(parts@), sep@),
{
    let mut r = String::new();
    let n = parts.len();
    let ghost all = views(parts@);
    let mut i: usize = 0;
    while i < n
        invariant
            n == parts@.len(),
            all == views(parts@),
            i <= n,
            r@ == join(all.take(i as int), sep@),
        decreases n - i,
    {
        if i > 0 {
            r.append(sep);
        }
        r.append(parts[i].as_str());
        proof {
            assert(all.take(i + 1).drop_last() =~= all.take(i as int));
            if i == 0 {
                assert(r@ =~= join(all.take(1), sep@));
            }
        }
        i = i + 1;
    }
    proof {
        assert(all.take(n as int) =~= all);
    }
    r
}

/// Concatenates all strings of `parts` (what `parts.concat()` returns).
pub fn concat_strings(parts: &[String]) -> (r: String)
    ensures
        r@ == concat_all(views(parts@)),
{
    let mut r = String::new();
    let n = parts.len();
    let ghost all = views(parts@);
    let mut i: usize = 0;
    while i < n
        invariant
            n == parts@.len(),
            all == views(parts@),
            i <= n,
            r@ == concat_all(all.take(i as int)),
        decreases n - i,
    {
        r.append(parts[i].as_str());
        proof {
            assert(all.take(i + 1).drop_last() =~= all.take(i as int));
        }
        i = i + 1;
    }
    proof {
        assert(all.take(n as int) =~= all);
    }
    r
}

// ---------------------------------------------------------------------------
// Byte-wise order of strings (the order of `Ord for str`)
// ---------------------------------------------------------------------------

/// Strict lexicographic order of byte sequences.
pub open spec fn bytes_lt(a: Seq<u8>, b: Seq<u8>) -> bool
    decreases a.len(),
{
    if a.len() == 0 {
        b.len() > 0
    } else if b.len() == 0 {
        false
    } else if a[0] != b[0] {
        a[0] < b[0]
    } else {
        bytes_lt(a.drop_first(), b.drop_first())
    }
}

/// Strict order of strings: `a < b` compares their UTF-8 encodings byte by byte.
pub open spec fn str_lt(a: Seq<char>, b: Seq<char>) -> bool {
    bytes_lt(vstd::utf8::encode_utf8(a), vstd::utf8::encode_utf8(b))
}

/// No byte sequence precedes itself.
pub proof fn lemma_bytes_lt_irreflexive(a: Seq<u8>)
    ensures
        !bytes_lt(a, a),
    decreases a.len(),
{
    if a.len() > 0 {
        lemma_bytes_lt_irreflexive(a.drop_first());
    }
}

/// The byte order is transitive.
pub proof fn lemma_bytes_lt_transitive(a: Seq<u8>, b: Seq<u8>, c: Seq<u8>)
    requires
        bytes_lt(a, b),
        bytes_lt(b, c),
    ensures
        bytes_lt(a, c),
    decreases a.len(),
{
    if a.len() > 0 && b.len() > 0 && c.len() > 0 {
        if a[0] == b[0] && b[0] == c[0] {
            lemma_bytes_lt_transitive(a.drop_first(), b.drop_first(), c.drop_first());
        }
    }
}

/// Of two different byte sequences one precedes the other.
pub proof fn lemma_bytes_lt_total(a: Seq<u8>, b: Seq<u8>)
    requires
        a != b,
    ensures
        bytes_lt(a, b) || bytes_lt(b, a),
    decreases a.len(),
{
    if a.len() == 0 && b.len() == 0 {
        assert(a =~= b);
    } else if a.len() > 0 && b.len() > 0 && a[0] == b[0] {
        if a.drop_first() == b.drop_first() {
            assert(a =~= seq![a[0]] + a.drop_first());
            assert(b =~= seq![b[0]] + b.drop_first());
        }
        lemma_bytes_lt_total(a.drop_first(), b.drop_first());
    }
}

/// Of two different strings one precedes the other.
pub proof fn lemma_str_lt_total(a: Seq<char>, b: Seq<char>)
    requires
        a != b,
    ensures
        str_lt(a, b) || str_lt(b, a),
{
    vstd::utf8::encode_utf8_decode_utf8(a);
    vstd::utf8::encode_utf8_decode_utf8(b);
    lemma_bytes_lt_total(vstd::utf8::encode_utf8(a), vstd::utf8::encode_utf8(b));
}

/// Compares two strings the way `str`'s `<` does.
pub fn str_less(a: &str, b: &str) -> (r: bool)
    ensures
        r == str_lt(a@, b@),
{
    let x = a.as_bytes();
    let y = b.as_bytes();
    let ghost xs = x@;
    let ghost ys = y@;
    let mut i: usize = 0;
    proof {
        assert(xs.skip(0) =~= xs);
        assert(ys.skip(0) =~= ys);
    }
    while i < x.len() && i < y.len() && x[i] == y[i]
        invariant
            xs == x@,
            ys == y@,
            i <= x@.len(),
            i <= y@.len(),
            bytes_lt(xs, ys) == bytes_lt(xs.skip(i as int), ys.skip(i as int)),
        decreases x@.len() - i,
    {
        proof {
            assert(xs.skip(i as int).drop_first() =~= xs.skip(i + 1));
            assert(ys.skip(i as int).drop_first() =~= ys.skip(i + 1));
        }
        i = i + 1;
    }
    if i == x.len() {
        proof {
            assert(xs.skip(i as int).len() == 0);
        }
        i < y.len()
    } else if i == y.len() {
        false
    } else {
        proof {
            assert(xs.skip(i as int)[0] == xs[i as int]);
            assert(ys.skip(i as int)[0] == ys[i as int]);
        }
        x[i] < y[i]
    }
}

// ---------------------------------------------------------------------------
// Stable ordering (insertion into a sorted sequence)
// ---------------------------------------------------------------------------

/// Inserts `x` before the first element that it strictly precedes.
pub open spec fn insert_sorted<T>(s: Seq<T>, x: T, lt: spec_fn(T, T) -> bool) -> Seq<T>
    decreases s.len(),
{
    if s.len() == 0 {
        seq![x]
    } else if lt(x, s[0]) {
        seq![x] + s
    } else {
        seq![s[0]] + insert_sorted(s.drop_first(), x, lt)
    }
}

/// Stable sort: each element in turn is inserted after all that do not follow it.
pub open spec fn sort_by<T>(s: Seq<T>, lt: spec_fn(T, T) -> bool) -> Seq<T>
    decreases s.len(),
{
    if s.len() == 0 {
        s
    } else {
        insert_sorted(sort_by(s.drop_last(), lt), s.last(), lt)
    }
}

/// `s` is ordered: no element strictly precedes an earlier one.
pub open spec fn is_sorted_by<T>(s: Seq<T>, lt: spec_fn(T, T) -> bool) -> bool {
    forall|i: int, j: int| 0 <= i < j < s.len() ==> !lt(#[trigger] s[j], #[trigger] s[i])
}

/// Inserting at the first position whose element `x` strictly precedes.
pub proof fn lemma_insert_sorted_at<T>(s: Seq<T>, x: T, lt: spec_fn(T, T) -> bool, p: int)
    requires
        0 <= p <= s.len(),
        forall|k: int| 0 <= k < p ==> !lt(x, #[trigger] s[k]),
        p < s.len() ==> lt(x, s[p]),
    ensures
        insert_sorted(s, x, lt) == s.take(p) + seq![x] + s.skip(p),
    decreases s.len(),
{
    if s.len() == 0 {
        assert(s.take(p) + seq![x] + s.skip(p) =~= seq![x]);
    } else if p == 0 {
        assert(s.take(p) + seq![x] + s.skip(p) =~= seq![x] + s);
    } else {
        let t = s.drop_first();
        assert forall|k: int| 0 <= k < p - 1 implies !lt(x, #[trigger] t[k]) by {
            assert(t[k] == s[k + 1]);
        }
        lemma_insert_sorted_at(t, x, lt, p - 1);
        assert(s.take(p) + seq![x] + s.skip(p) =~= seq![s[0]] + (t.take(p - 1) + seq![x] + t.skip(p - 1)));
    }
}

/// A strict order for which sorting is meaningful.
pub open spec fn strict_order<T>(lt: spec_fn(T, T) -> bool) -> bool {
    &&& forall|a: T| !#[trigger] lt(a, a)
    &&& forall|a: T, b: T, c: T| #[trigger] lt(a, b) && #[trigger] lt(b, c) ==> lt(a, c)
}

/// Insertion keeps a sequence ordered and adds exactly the new element.
pub proof fn lemma_insert_sorted_props<T>(s: Seq<T>, x: T, lt: spec_fn(T, T) -> bool)
    requires
        strict_order(lt),
        is_sorted_by(s, lt),
    ensures
        is_sorted_by(insert_sorted(s, x, lt), lt),
        insert_sorted(s, x, lt).to_multiset() == s.to_multiset().insert(x),
    decreases s.len(),
{
    broadcast use vstd::seq_lib::group_to_multiset_ensures, vstd::multiset::group_multiset_axioms;
    if s.len() == 0 {
        assert(insert_sorted(s, x, lt) =~= seq![x]);
        assert(seq![x] =~= Seq::<T>::empty().push(x));
    } else if lt(x, s[0]) {
        let r = seq![x] + s;
        assert forall|i: int, j: int| 0 <= i < j < r.len() implies !lt(#[trigger] r[j], #[trigger] r[i]) by {
            if i == 0 {
                if lt(r[j], x) {
                    if j > 1 {
                        assert(!lt(s[j - 1], s[0]));
                    }
                    assert(lt(r[j], s[0]));
                }
            } else {
                assert(r[i] == s[i - 1] && r[j] == s[j - 1]);
            }
        }
        vstd::seq_lib::lemma_multiset_commutative(seq![x], s);
        assert(seq![x] =~= Seq::<T>::empty().push(x));
    } else {
        let t = s.drop_first();
        assert(is_sorted_by(t, lt)) by {
            assert forall|i: int, j: int| 0 <= i < j < t.len() implies !lt(#[trigger] t[j], #[trigger] t[i]) by {
                assert(t[i] == s[i + 1] && t[j] == s[j + 1]);
            }
        }
        lemma_insert_sorted_props(t, x, lt);
        let u = insert_sorted(t, x, lt);
        let r = seq![s[0]] + u;
        assert(r == insert_sorted(s, x, lt));
        assert forall|i: int, j: int| 0 <= i < j < r.len() implies !lt(#[trigger] r[j], #[trigger] r[i]) by {
            if i == 0 {
                // every element of u is x or an element of t, none of which precedes s[0]
                let y = r[j];
                assert(u[j - 1] == y);
                assert(u.contains(y));
                assert(u.to_multiset().count(y) > 0);
                if y != x {
                    assert(t.to_multiset().count(y) > 0);
                    assert(t.contains(y));
                    let k = choose|k: int| 0 <= k < t.len() && t[k] == y;
                    assert(s[k + 1] == y);
                }
            } else {
                assert(r[i] == u[i - 1] && r[j] == u[j - 1]);
            }
        }
        vstd::seq_lib::lemma_multiset_commutative(seq![s[0]], u);
        assert(s =~= seq![s[0]] + t);
        vstd::seq_lib::lemma_multiset_commutative(seq![s[0]], t);
    }
}

/// Inserting adds one element.
pub proof fn lemma_insert_sorted_len<T>(s: Seq<T>, x: T, lt: spec_fn(T, T) -> bool)
    ensures
        insert_sorted(s, x, lt).len() == s.len() + 1,
    decreases s.len(),
{
    if s.len() > 0 && !lt(x, s[0]) {
        lemma_insert_sorted_len(s.drop_first(), x, lt);
    }
}

/// Sorting keeps the length.
pub proof fn lemma_sort_by_len<T>(s: Seq<T>, lt: spec_fn(T, T) -> bool)
    ensures
        sort_by(s, lt).len() == s.len(),
    decreases s.len(),
{
    if s.len() > 0 {
        lemma_sort_by_len(s.drop_last(), lt);
        lemma_insert_sorted_len(sort_by(s.drop_last(), lt), s.last(), lt);
    }
}

/// Sorting yields an ordered rearrangement of its input.
pub proof fn lemma_sort_by_props<T>(s: Seq<T>, lt: spec_fn(T, T) -> bool)
    requires
        strict_order(lt),
    ensures
        is_sorted_by(sort_by(s, lt), lt),
        sort_by(s, lt).to_multiset() == s.to_multiset(),
    decreases s.len(),
{
    broadcast use vstd::seq_lib::group_to_multiset_ensures;
    if s.len() > 0 {
        lemma_sort_by_props(s.drop_last(), lt);
        lemma_insert_sorted_props(sort_by(s.drop_last(), lt), s.last(), lt);
        assert(s =~= s.drop_last().push(s.last()));
    }
}

/// The indices `0, 1, ..., n - 1`.
pub open spec fn indices(n: nat) -> Seq<usize> {
    Seq::new(n, |i: int| i as usize)
}

/// Order of indices by the byte order of their keys.
pub open spec fn key_lt(keys: Seq<Seq<char>>) -> spec_fn(usize, usize) -> bool {
    |i: usize, j: usize| str_lt(keys[i as int], keys[j as int])
}

/// The indices of `keys`, stably sorted by their keys (`sort_by(|a, b| a.cmp(b))`).
pub open spec fn order_by_key(keys: Seq<Seq<char>>) -> Seq<usize> {
    sort_by(indices(keys.len()), key_lt(keys))
}

/// The byte order of strings is a strict order.
pub proof fn lemma_str_lt_strict()
    ensures
        forall|a: Seq<char>| !#[trigger] str_lt(a, a),
        forall|a: Seq<char>, b: Seq<char>, c: Seq<char>|
            #[trigger] str_lt(a, b) && #[trigger] str_lt(b, c) ==> str_lt(a, c),
{
    assert forall|a: Seq<char>| !#[trigger] str_lt(a, a) by {
        lemma_bytes_lt_irreflexive(vstd::utf8::encode_utf8(a));
    }
    assert forall|a: Seq<char>, b: Seq<char>, c: Seq<char>|
        #[trigger] str_lt(a, b) && #[trigger] str_lt(b, c) implies str_lt(a, c) by {
        lemma_bytes_lt_transitive(
            vstd::utf8::encode_utf8(a),
            vstd::utf8::encode_utf8(b),
            vstd::utf8::encode_utf8(c),
        );
    }
}

/// Ordering indices by their keys is a strict order.
pub proof fn lemma_key_lt_strict(keys: Seq<Seq<char>>)
    ensures
        strict_order(key_lt(keys)),
{
    lemma_str_lt_strict();
    let lt = key_lt(keys);
    assert forall|a: usize| !#[trigger] lt(a, a) by {
        assert(!str_lt(keys[a as int], keys[a as int]));
    }
    assert forall|a: usize, b: usize, c: usize| #[trigger] lt(a, b) && #[trigger] lt(b, c) implies lt(a, c) by {
        assert(str_lt(keys[a as int], keys[b as int]));
        assert(str_lt(keys[b as int], keys[c as int]));
    }
}

/// The positions of `keys` in ascending byte order of the keys, equal keys in
/// the order they came in.
pub fn sorted_order(keys: &Vec<String>) -> (order: Vec<usize>)
    ensures
        order@ == order_by_key(views(keys@)),
        forall|k: int| 0 <= k < order@.len() ==> order@[k] < keys@.len(),
{
    let n = keys.len();
    let ghost ks = views(keys@);
    let ghost lt = key_lt(ks);
    let ghost idx = indices(n as nat);
    let mut order: Vec<usize> = Vec::new();
    let mut i: usize = 0;
    proof {
        assert(idx.take(0) =~= Seq::<usize>::empty());
    }
    while i < n
        invariant
            n == keys@.len(),
            ks == views(keys@),
            lt == key_lt(ks),
            idx == indices(n as nat),
            i <= n,
            order@ == sort_by(idx.take(i as int), lt),
            forall|k: int| 0 <= k < order@.len() ==> order@[k] < i,
        decreases n - i,
    {
        let mut p: usize = 0;
        while p < order.len() && !str_less(keys[i].as_str(), keys[order[p]].as_str())
            invariant
                n == keys@.len(),
                ks == views(keys@),
                lt == key_lt(ks),
                i < n,
                p <= order@.len(),
                forall|k: int| 0 <= k < order@.len() ==> order@[k] < i,
                forall|k: int| 0 <= k < p ==> !lt(i, #[trigger] order@[k]),
            decreases order@.len() - p,
        {
            p = p + 1;
        }
        proof {
            if p < order@.len() {
                assert(lt(i, order@[p as int]));
            }
            lemma_insert_sorted_at(order@, i, lt, p as int);
            assert(idx.take(i + 1).drop_last() =~= idx.take(i as int));
            assert(idx.take(i + 1).last() == i);
            assert(order@.take(p as int) + seq![i] + order@.skip(p as int) =~= order@.insert(p as int, i));
        }
        order.insert(p, i);
        i = i + 1;
    }
    proof {
        assert(idx.take(n as int) =~= idx);
    }
    order
}

/// The keys in ascending byte order, equal keys in the order they came in.
pub open spec fn sorted_keys(keys: Seq<Seq<char>>) -> Seq<Seq<char>> {
    order_by_key(keys).map_values(|i: usize| keys[i as int])
}

/// Sorting keys gives each key of the input, in an order where no key
/// precedes an earlier one.
pub proof fn lemma_sorted_keys(keys: Seq<Seq<char>>)
    ensures
        sorted_keys(keys).len() == keys.len(),
        forall|i: int, j: int|
            0 <= i < j < keys.len() ==> !str_lt(#[trigger] sorted_keys(keys)[j], #[trigger] sorted_keys(keys)[i]),
        forall|k: int| 0 <= k < keys.len() ==> keys.contains(#[trigger] sorted_keys(keys)[k]),
{
    broadcast use vstd::seq_lib::group_to_multiset_ensures;
    let n = keys.len();
    let idx = indices(n);
    let o = order_by_key(keys);
    lemma_key_lt_strict(keys);
    lemma_sort_by_props(idx, key_lt(keys));
    assert(o.len() == n) by {
        assert(o.to_multiset().len() == o.len());
        assert(idx.to_multiset().len() == idx.len());
    }
    assert forall|k: int| 0 <= k < o.len() implies #[trigger] o[k] < n by {
        assert(o.contains(o[k]));
        assert(idx.to_multiset().count(o[k]) > 0);
        assert(idx.contains(o[k]));
    }
    let sk = sorted_keys(keys);
    assert forall|i: int, j: int| 0 <= i < j < keys.len() implies !str_lt(#[trigger] sk[j], #[trigger] sk[i]) by {
        assert(o[i] < n && o[j] < n);
        assert(!key_lt(keys)(o[j], o[i]));
    }
    assert forall|k: int| 0 <= k < keys.len() implies keys.contains(#[trigger] sk[k]) by {
        assert(o[k] < n);
        assert(sk[k] == keys[o[k] as int]);
    }
}

/// The strings of `keys` in ascending byte order (`sort` on strings).
pub fn sorted_strings(keys: &Vec<String>) -> (r: Vec<String>)
    ensures
        views(r@) == sorted_keys(views(keys@)),
{
    let order = sorted_order(keys);
    let ghost ks = views(keys@);
    let mut r: Vec<String> = Vec::new();
    let mut k: usize = 0;
    while k < order.len()
        invariant
            ks == views(keys@),
            order@ == order_by_key(ks),
            forall|j: int| 0 <= j < order@.len() ==> order@[j] < keys@.len(),
            k <= order@.len(),
            r@.len() == k,
            views(r@) == sorted_keys(ks).take(k as int),
        decreases order@.len() - k,
    {
        let ghost before = r@;
        r.push(keys[order[k]].clone());
        proof {
            assert(r@ == before.push(r@[k as int]));
            assert(r@[k as int]@ == ks[order@[k as int] as int]);
            assert(sorted_keys(ks)[k as int] == ks[order@[k as int] as int]);
            assert(views(r@) =~= views(before).push(r@[k as int]@));
            assert(sorted_keys(ks).take(k + 1) =~= sorted_keys(ks).take(k as int).push(sorted_keys(ks)[k as int]));
        }
        k = k + 1;
    }
    proof {
        assert(sorted_keys(ks).take(order@.len() as int) =~= sorted_keys(ks));
    }
    r
}

/// The concatenation of `f` applied to each element of `s`, in order.
pub open spec fn concat_map<T>(s: Seq<T>, f: spec_fn(T) -> Seq<char>) -> Seq<char>
    decreases s.len(),
{
    if s.len() == 0 {
        Seq::empty()
    } else {
        concat_map(s.drop_last(), f) + f(s.last())
    }
}

/// One more element of a prefix adds its image at the end.
pub proof fn lemma_concat_map_step<T>(s: Seq<T>, f: spec_fn(T) -> Seq<char>, k: int)
    requires
        0 <= k < s.len(),
    ensures
        concat_map(s.take(k + 1), f) == concat_map(s.take(k), f) + f(s[k]),
{
    assert(s.take(k + 1).drop_last() =~= s.take(k));
    assert(s.take(k + 1).last() == s[k]);
}

/// The elements of `list` at the positions `order`.
pub open spec fn arrange<T>(list: Seq<T>, order: Seq<usize>) -> Seq<T> {
    order.map_values(|i: usize| list[i as int])
}


// ---------------------------------------------------------------------------
// Sorting by a key does not depend on the order the elements came in
// ---------------------------------------------------------------------------

/// The elements of `list` in ascending byte order of `key`, equal keys in the
/// order they came in.
pub open spec fn sorted_by_key<T>(list: Seq<T>, key: spec_fn(T) -> Seq<char>) -> Seq<T> {
    arrange(list, order_by_key(list.map_values(key)))
}

/// No two elements of `list` have the same key.
pub open spec fn keys_distinct<T>(list: Seq<T>, key: spec_fn(T) -> Seq<char>) -> bool {
    forall|i: int, j: int| 0 <= i < j < list.len() ==> key(#[trigger] list[i]) != key(#[trigger] list[j])
}

/// `s` is in strictly ascending byte order of `key`.
pub open spec fn strictly_ascending<T>(s: Seq<T>, key: spec_fn(T) -> Seq<char>) -> bool {
    forall|i: int, j: int| 0 <= i < j < s.len() ==> str_lt(key(#[trigger] s[i]), key(#[trigger] s[j]))
}

/// The order of keys lists a position of each key.
pub proof fn lemma_order_by_key_bounds(keys: Seq<Seq<char>>)
    ensures
        order_by_key(keys).len() == keys.len(),
        forall|k: int| 0 <= k < keys.len() ==> #[trigger] order_by_key(keys)[k] < keys.len(),
{
    broadcast use vstd::seq_lib::group_to_multiset_ensures;
    let n = keys.len();
    let idx = indices(n);
    let o = order_by_key(keys);
    lemma_key_lt_strict(keys);
    lemma_sort_by_props(idx, key_lt(keys));
    assert(o.len() == n) by {
        assert(o.to_multiset().len() == o.len());
        assert(idx.to_multiset().len() == idx.len());
    }
    assert forall|k: int| 0 <= k < n implies #[trigger] o[k] < n by {
        assert(o.contains(o[k]));
        assert(idx.to_multiset().count(o[k]) > 0);
        assert(idx.contains(o[k]));
    }
}

/// Every key occurs among the sorted keys.
pub proof fn lemma_sorted_keys_complete(keys: Seq<Seq<char>>)
    requires
        keys.len() <= usize::MAX,
    ensures
        forall|x: Seq<char>| keys.contains(x) ==> #[trigger] sorted_keys(keys).contains(x),
{
    broadcast use vstd::seq_lib::group_to_multiset_ensures;
    let n = keys.len();
    let idx = indices(n);
    let o = order_by_key(keys);
    lemma_key_lt_strict(keys);
    lemma_sort_by_props(idx, key_lt(keys));
    lemma_order_by_key_bounds(keys);
    let sk = sorted_keys(keys);
    assert forall|x: Seq<char>| keys.contains(x) implies #[trigger] sorted_keys(keys).contains(x) by {
        let m = choose|m: int| 0 <= m < keys.len() && keys[m] == x;
        assert(idx[m] == m as usize);
        assert(idx.contains(m as usize));
        assert(o.to_multiset().count(m as usize) > 0);
        assert(o.contains(m as usize));
        let k = choose|k: int| 0 <= k < o.len() && o[k] == m as usize;
        assert(sk[k] == keys[m]);
    }
}

/// Sorting elements with distinct keys keeps exactly the elements and puts
/// them in strictly ascending order of their keys.
proof fn lemma_sorted_by_key_props<T>(list: Seq<T>, key: spec_fn(T) -> Seq<char>)
    requires
        list.len() <= usize::MAX,
        keys_distinct(list, key),
    ensures
        forall|x: T| sorted_by_key(list, key).contains(x) <==> list.contains(x),
        strictly_ascending(sorted_by_key(list, key), key),
{
    broadcast use vstd::seq_lib::group_to_multiset_ensures;
    let n = list.len();
    let ks = list.map_values(key);
    let idx = indices(n);
    let lt = key_lt(ks);
    let o = order_by_key(ks);
    let s = sorted_by_key(list, key);
    lemma_key_lt_strict(ks);
    lemma_sort_by_props(idx, lt);
    assert(o.len() == n) by {
        assert(o.to_multiset().len() == o.len());
        assert(idx.to_multiset().len() == idx.len());
    }
    assert forall|k: int| 0 <= k < o.len() implies #[trigger] o[k] < n by {
        assert(o.contains(o[k]));
        assert(idx.to_multiset().count(o[k]) > 0);
        assert(idx.contains(o[k]));
    }
    assert(idx.no_duplicates()) by {
        assert forall|i: int, j: int| 0 <= i < idx.len() && 0 <= j < idx.len() && i != j implies idx[i] != idx[j] by {
            assert(idx[i] as int == i);
            assert(idx[j] as int == j);
        }
    }
    idx.lemma_multiset_has_no_duplicates();
    o.lemma_multiset_has_no_duplicates_conv();
    assert forall|x: T| s.contains(x) <==> list.contains(x) by {
        if s.contains(x) {
            let k = choose|k: int| 0 <= k < s.len() && s[k] == x;
            assert(list[o[k] as int] == x);
        }
        if list.contains(x) {
            let m = choose|m: int| 0 <= m < list.len() && list[m] == x;
            assert(idx[m] == m as usize);
            assert(idx.contains(m as usize));
            assert(o.to_multiset().count(m as usize) > 0);
            assert(o.contains(m as usize));
            let k = choose|k: int| 0 <= k < o.len() && o[k] == m as usize;
            assert(s[k] == list[m]);
        }
    }
    assert forall|i: int, j: int| 0 <= i < j < s.len() implies str_lt(key(#[trigger] s[i]), key(#[trigger] s[j])) by {
        assert(o[i] < n && o[j] < n);
        assert(o[i] != o[j]);
        assert(!lt(o[j], o[i]));
        assert(s[i] == list[o[i] as int]);
        assert(s[j] == list[o[j] as int]);
        assert(ks[o[i] as int] == key(s[i]));
        assert(ks[o[j] as int] == key(s[j]));
        if o[i] < o[j] {
            assert(key(list[o[i] as int]) != key(list[o[j] as int]));
        } else {
            assert(key(list[o[j] as int]) != key(list[o[i] as int]));
        }
        lemma_str_lt_total(key(s[i]), key(s[j]));
    }
}

/// Two sequences in strictly ascending order of a key that hold the same
/// elements are equal.
proof fn lemma_strictly_ascending_unique<T>(s: Seq<T>, t: Seq<T>, key: spec_fn(T) -> Seq<char>)
    requires
        strictly_ascending(s, key),
        strictly_ascending(t, key),
        forall|x: T| s.contains(x) <==> t.contains(x),
    ensures
        s == t,
    decreases s.len() + t.len(),
{
    lemma_str_lt_strict();
    if s.len() == 0 || t.len() == 0 {
        if s.len() > 0 {
            assert(s.contains(s[0]));
        }
        if t.len() > 0 {
            assert(t.contains(t[0]));
        }
        assert(s =~= t);
    } else {
        let a = s.last();
        let b = t.last();
        assert(s.contains(a));
        assert(t.contains(b));
        let k = choose|k: int| 0 <= k < t.len() && t[k] == a;
        let m = choose|m: int| 0 <= m < s.len() && s[m] == b;
        if k < t.len() - 1 {
            assert(str_lt(key(t[k]), key(t[t.len() - 1])));
            if m < s.len() - 1 {
                assert(str_lt(key(s[m]), key(s[s.len() - 1])));
            }
            assert(false);
        }
        assert(a == b);
        let s0 = s.drop_last();
        let t0 = t.drop_last();
        assert forall|x: T| s0.contains(x) <==> t0.contains(x) by {
            if s0.contains(x) {
                let i = choose|i: int| 0 <= i < s0.len() && s0[i] == x;
                assert(s[i] == x);
                assert(str_lt(key(s[i]), key(s[s.len() - 1])));
                assert(t.contains(x));
                let j = choose|j: int| 0 <= j < t.len() && t[j] == x;
                assert(j != t.len() - 1);
                assert(t0[j] == x);
            }
            if t0.contains(x) {
                let j = choose|j: int| 0 <= j < t0.len() && t0[j] == x;
                assert(t[j] == x);
                assert(str_lt(key(t[j]), key(t[t.len() - 1])));
                assert(s.contains(x));
                let i = choose|i: int| 0 <= i < s.len() && s[i] == x;
                assert(i != s.len() - 1);
                assert(s0[i] == x);
            }
        }
        lemma_strictly_ascending_unique(s0, t0, key);
        assert(s =~= s0.push(a));
        assert(t =~= t0.push(b));
    }
}

/// Sorting by a key with distinct keys depends only on which elements there
/// are, not on the order they came in.
pub proof fn lemma_sorted_by_key_canonical<T>(l1: Seq<T>, l2: Seq<T>, key: spec_fn(T) -> Seq<char>)
    requires
        l1.len() <= usize::MAX,
        l2.len() <= usize::MAX,
        keys_distinct(l1, key),
        keys_distinct(l2, key),
        forall|x: T| l1.contains(x) <==> l2.contains(x),
    ensures
        sorted_by_key(l1, key) == sorted_by_key(l2, key),
{
    lemma_sorted_by_key_props(l1, key);
    lemma_sorted_by_key_props(l2, key);
    let s1 = sorted_by_key(l1, key);
    let s2 = sorted_by_key(l2, key);
    assert forall|x: T| s1.contains(x) <==> s2.contains(x) by {
        assert(s1.contains(x) <==> l1.contains(x));
        assert(s2.contains(x) <==> l2.contains(x));
        assert(l1.contains(x) <==> l2.contains(x));
    }
    lemma_strictly_ascending_unique(sorted_by_key(l1, key), sorted_by_key(l2, key), key);
}

} // verus!
