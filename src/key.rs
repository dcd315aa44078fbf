//! Canonical unit keys.
//!
//! A raw unit identifier mixes a block prefix in letters with a block number
//! and a three-digit door number, all run together (`"A12005"`). Its canonical
//! key is `letters + block + "-" + door`, each number without leading zeros
//! (`"A12-5"`).
use vstd::prelude::*;
use crate::text::{i64_text, int_text, is_digit};

verus! {

broadcast use vstd::string::group_string_axioms;

/// The digits of `s`, in order, wherever they stand.
pub open spec fn digits_of(s: Seq<char>) -> Seq<char>
    decreases s.len(),
{
    if s.len() == 0 {
        Seq::empty()
    } else if is_digit(s.last()) {
        digits_of(s.drop_last()).push(s.last())
    } else {
        digits_of(s.drop_last())
    }
}

/// The characters of `s` that are not digits, in order.
pub open spec fn letters_of(s: Seq<char>) -> Seq<char>
    decreases s.len(),
{
    if s.len() == 0 {
        Seq::empty()
    } else if is_digit(s.last()) {
        letters_of(s.drop_last())
    } else {
        letters_of(s.drop_last()).push(s.last())
    }
}

/// `s` without its leading `'0'`s.
pub open spec fn strip_zeros(s: Seq<char>) -> Seq<char>
    decreases s.len(),
{
    if s.len() > 0 && s[0] == '0' {
        strip_zeros(s.drop_first())
    } else {
        s
    }
}

/// A number's digits without leading zeros; `"0"` when nothing is left.
pub open spec fn canonical_number(s: Seq<char>) -> Seq<char> {
    let t = strip_zeros(s);
    if t.len() == 0 {
        seq!['0']
    } else {
        t
    }
}

/// The block number of a raw identifier: all its digits but the last three.
pub open spec fn block_part(raw: Seq<char>) -> Seq<char> {
    let d = digits_of(raw);
    canonical_number(d.take(d.len() - 3))
}

/// The door number of a raw identifier: its last three digits.
pub open spec fn door_part(raw: Seq<char>) -> Seq<char> {
    let d = digits_of(raw);
    canonical_number(d.skip(d.len() - 3))
}

/// The canonical key of a raw identifier. With fewer than three digits the
/// block and door cannot be told apart, and the identifier is kept as it is.
pub open spec fn normalized(raw: Seq<char>) -> Seq<char> {
    if digits_of(raw).len() >= 3 {
        letters_of(raw) + block_part(raw) + seq!['-'] + door_part(raw)
    } else {
        raw
    }
}

/// Three-digit, zero-padded form of a door number of at most three digits.
pub open spec fn pad_door(door: Seq<char>) -> Seq<char> {
    Seq::new((3 - door.len()) as nat, |i: int| '0') + door
}

/// The raw identifier written back from a key's parts: the letters, the
/// block number, then the door number padded to three digits.
pub open spec fn written_back(raw: Seq<char>) -> Seq<char> {
    letters_of(raw) + block_part(raw) + pad_door(door_part(raw))
}

/// Key of a property as the property import builds it: the block label
/// followed directly by the door number.
pub open spec fn property_key_of(block: Seq<char>, door: i32) -> Seq<char> {
    block + int_text(door as int)
}

/// `s` without its trailing `'-'`s.
pub open spec fn strip_dashes(s: Seq<char>) -> Seq<char>
    decreases s.len(),
{
    if s.len() > 0 && s.last() == '-' {
        strip_dashes(s.drop_last())
    } else {
        s
    }
}

proof fn lemma_strip_zeros_from(s: Seq<char>, k: int)
    requires
        0 <= k <= s.len(),
        forall|j: int| 0 <= j < k ==> #[trigger] s[j] == '0',
    ensures
        strip_zeros(s) == strip_zeros(s.subrange(k, s.len() as int)),
    decreases k,
{
    if k > 0 {
        lemma_strip_zeros_from(s.drop_first(), k - 1);
        assert(s.drop_first().subrange(k - 1, s.drop_first().len() as int) =~= s.subrange(
            k,
            s.len() as int,
        ));
    } else {
        assert(s.subrange(0, s.len() as int) =~= s);
    }
}

proof fn lemma_digits_of_concat(a: Seq<char>, b: Seq<char>)
    ensures
        digits_of(a + b) == digits_of(a) + digits_of(b),
        letters_of(a + b) == letters_of(a) + letters_of(b),
    decreases b.len(),
{
    if b.len() == 0 {
        assert(a + b =~= a);
        assert(digits_of(a) + digits_of(b) =~= digits_of(a));
        assert(letters_of(a) + letters_of(b) =~= letters_of(a));
    } else {
        assert((a + b).drop_last() =~= a + b.drop_last());
        assert((a + b).last() == b.last());
        lemma_digits_of_concat(a, b.drop_last());
        assert(digits_of(a) + digits_of(b.drop_last()).push(b.last()) =~= (digits_of(a)
            + digits_of(b.drop_last())).push(b.last()));
        assert(letters_of(a) + letters_of(b.drop_last()).push(b.last()) =~= (letters_of(a)
            + letters_of(b.drop_last())).push(b.last()));
    }
}

proof fn lemma_digits_of_digits(s: Seq<char>)
    requires
        crate::text::all_digits(s),
    ensures
        digits_of(s) == s,
        letters_of(s) == Seq::<char>::empty(),
    decreases s.len(),
{
    if s.len() > 0 {
        lemma_digits_of_digits(s.drop_last());
        assert(s.drop_last().push(s.last()) =~= s);
    } else {
        assert(s =~= Seq::<char>::empty());
    }
}

proof fn lemma_digits_of_result(s: Seq<char>)
    ensures
        crate::text::all_digits(digits_of(s)),
        forall|i: int| 0 <= i < letters_of(s).len() ==> !is_digit(#[trigger] letters_of(s)[i]),
    decreases s.len(),
{
    if s.len() > 0 {
        lemma_digits_of_result(s.drop_last());
        let d = digits_of(s.drop_last());
        let l = letters_of(s.drop_last());
        assert forall|i: int| 0 <= i < d.push(s.last()).len() implies is_digit(
            #[trigger] d.push(s.last())[i],
        ) || !is_digit(s.last()) by {
            if i < d.len() {
                assert(d.push(s.last())[i] == d[i]);
            }
        }
        assert forall|i: int| 0 <= i < l.push(s.last()).len() implies !is_digit(
            #[trigger] l.push(s.last())[i],
        ) || is_digit(s.last()) by {
            if i < l.len() {
                assert(l.push(s.last())[i] == l[i]);
            }
        }
    }
}

proof fn lemma_letters_of_letters(s: Seq<char>)
    requires
        forall|i: int| 0 <= i < s.len() ==> !is_digit(#[trigger] s[i]),
    ensures
        digits_of(s) == Seq::<char>::empty(),
        letters_of(s) == s,
    decreases s.len(),
{
    if s.len() > 0 {
        lemma_letters_of_letters(s.drop_last());
        assert(s.drop_last().push(s.last()) =~= s);
    } else {
        assert(s =~= Seq::<char>::empty());
    }
}

proof fn lemma_strip_zeros_shape(s: Seq<char>)
    ensures
        strip_zeros(s).len() <= s.len(),
        strip_zeros(s).len() == 0 || strip_zeros(s)[0] != '0',
        crate::text::all_digits(s) ==> crate::text::all_digits(strip_zeros(s)),
        s.len() == 0 || strip_zeros(s).len() > 0 || s[0] == '0',
    decreases s.len(),
{
    if s.len() > 0 && s[0] == '0' {
        lemma_strip_zeros_shape(s.drop_first());
        assert forall|i: int| 0 <= i < s.drop_first().len() implies #[trigger] s.drop_first()[i]
            == s[i + 1] by {}
    }
}

proof fn lemma_canonical_number_stable(s: Seq<char>)
    ensures
        canonical_number(canonical_number(s)) == canonical_number(s),
        canonical_number(s).len() >= 1,
        s.len() >= 1 ==> canonical_number(s).len() <= s.len(),
        crate::text::all_digits(s) ==> crate::text::all_digits(canonical_number(s)),
{
    lemma_strip_zeros_shape(s);
    let t = strip_zeros(s);
    if t.len() == 0 {
        reveal_with_fuel(strip_zeros, 2);
        assert(seq!['0'].drop_first() =~= Seq::<char>::empty());
    } else {
        assert(strip_zeros(t) == t);
    }
}

proof fn lemma_strip_zeros_padding(k: nat, s: Seq<char>)
    ensures
        strip_zeros(Seq::new(k, |i: int| '0') + s) == strip_zeros(s),
    decreases k,
{
    let z = Seq::new(k, |i: int| '0');
    if k > 0 {
        assert((z + s).drop_first() =~= Seq::new((k - 1) as nat, |i: int| '0') + s);
        lemma_strip_zeros_padding((k - 1) as nat, s);
    } else {
        assert(z + s =~= s);
    }
}

/// A canonical key is stable under writing it back: for a raw identifier with
/// at least three digits, the identifier rebuilt from its key's parts (its
/// letters, its block number, its door number padded to three digits) has the
/// same key. So `"A12005"`, `"A012005"` and the rebuilt `"A12005"` of the key
/// `"A12-5"` all name the same unit.
pub proof fn lemma_key_written_back(raw: Seq<char>)
    requires
        digits_of(raw).len() >= 3,
    ensures
        digits_of(written_back(raw)).len() >= 3,
        normalized(written_back(raw)) == normalized(raw),
{
    let d = digits_of(raw);
    let l = letters_of(raw);
    let b = block_part(raw);
    let u = door_part(raw);
    let p = pad_door(u);
    lemma_digits_of_result(raw);
    let front = d.take(d.len() - 3);
    let back = d.skip(d.len() - 3);
    assert(crate::text::all_digits(front)) by {
        assert forall|i: int| 0 <= i < front.len() implies is_digit(#[trigger] front[i]) by {
            assert(front[i] == d[i]);
        }
    }
    assert(crate::text::all_digits(back)) by {
        assert forall|i: int| 0 <= i < back.len() implies is_digit(#[trigger] back[i]) by {
            assert(back[i] == d[i + d.len() - 3]);
        }
    }
    lemma_canonical_number_stable(front);
    lemma_canonical_number_stable(back);
    let zeros = Seq::new((3 - u.len()) as nat, |i: int| '0');
    assert(crate::text::all_digits(p)) by {
        assert forall|i: int| 0 <= i < p.len() implies is_digit(#[trigger] p[i]) by {
            if i >= zeros.len() {
                assert(p[i] == u[i - zeros.len()]);
            }
        }
    }
    lemma_letters_of_letters(l);
    lemma_digits_of_digits(b);
    lemma_digits_of_digits(p);
    lemma_digits_of_concat(l, b);
    lemma_digits_of_concat(l + b, p);
    let w = written_back(raw);
    assert(digits_of(w) =~= b + p);
    assert(letters_of(w) =~= l);
    assert(p.len() == 3);
    let dw = digits_of(w);
    assert(dw.take(dw.len() - 3) =~= b);
    assert(dw.skip(dw.len() - 3) =~= p);
    lemma_strip_zeros_padding((3 - u.len()) as nat, u);
    assert(canonical_number(p) == canonical_number(u));
}

/// `s` without its leading `'0'`s, or `"0"` when nothing is left.
fn canonical_number_text(s: &str) -> (r: String)
    ensures
        r@ == canonical_number(s@),
{
    let n = s.unicode_len();
    let mut k: usize = 0;
    while k < n && s.get_char(k) == '0'
        invariant
            k <= n,
            n == s@.len(),
            forall|j: int| 0 <= j < k ==> #[trigger] s@[j] == '0',
        decreases n - k,
    {
        k = k + 1;
    }
    proof {
        lemma_strip_zeros_from(s@, k as int);
        let rest = s@.subrange(k as int, n as int);
        assert(k == n || rest[0] != '0');
        assert(strip_zeros(rest) == rest);
    }
    if k == n {
        proof {
            reveal_strlit("0");
        }
        String::from_str("0")
    } else {
        String::from_str(s.substring_char(k, n))
    }
}

/// The canonical key of a raw unit identifier.
///
/// The digits and the other characters are gathered apart, wherever they
/// stand. With at least three digits, the last three are the door number and
/// the rest the block number, each without leading zeros (`"0"` when nothing
/// is left), and the key is `letters + block + "-" + door`: `"A12005"` gives
/// `"A12-5"`. With fewer digits the identifier comes back unchanged.
pub fn normalize(raw: &str) -> (key: String)
    ensures
        key@ == normalized(raw@),
{
    let n = raw.unicode_len();
    let mut digits = String::new();
    let mut letters = String::new();
    let mut i: usize = 0;
    while i < n
        invariant
            i <= n,
            n == raw@.len(),
            digits@ == digits_of(raw@.take(i as int)),
            letters@ == letters_of(raw@.take(i as int)),
        decreases n - i,
    {
        let c = raw.get_char(i);
        let one = raw.substring_char(i, i + 1);
        assert(raw@.take(i + 1).drop_last() =~= raw@.take(i as int));
        assert(one@ =~= seq![c]);
        if '0' <= c && c <= '9' {
            digits.append(one);
        } else {
            letters.append(one);
        }
        i = i + 1;
    }
    assert(raw@.take(n as int) =~= raw@);
    let m = digits.as_str().unicode_len();
    if m < 3 {
        return String::from_str(raw);
    }
    let block = canonical_number_text(digits.as_str().substring_char(0, m - 3));
    let door = canonical_number_text(digits.as_str().substring_char(m - 3, m));
    proof {
        reveal_strlit("-");
        assert(digits@.subrange(0, m - 3) =~= digits@.take(m - 3));
        assert(digits@.subrange(m - 3, m as int) =~= digits@.skip(m - 3));
    }
    let mut key = letters;
    key.append(block.as_str());
    key.append("-");
    key.append(door.as_str());
    key
}

/// The key under which the property import stores a unit: the block label
/// followed by the door number's decimal text (`"A-"` and `5` give `"A-5"`).
pub fn property_key(block: &str, door: i32) -> (key: String)
    ensures
        key@ == property_key_of(block@, door),
{
    let number = i64_text(door as i64);
    String::from_str(block).concat(number.as_str())
}

/// A block label without its trailing dashes (`"A-"` becomes `"A"`).
pub fn block_label(block: &str) -> (r: String)
    ensures
        r@ == strip_dashes(block@),
{
    let mut b: usize = block.unicode_len();
    assert(block@.take(b as int) =~= block@);
    while b > 0 && block.get_char(b - 1) == '-'
        invariant
            b <= block@.len(),
            strip_dashes(block@) == strip_dashes(block@.take(b as int)),
        decreases b,
    {
        assert(block@.take(b as int).drop_last() =~= block@.take(b - 1));
        b = b - 1;
    }
    assert(block@.take(b as int) =~= block@.subrange(0, b as int));
    String::from_str(block.substring_char(0, b))
}

} // verus!
