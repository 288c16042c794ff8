//! Deterministic identity keys for kill occurrences.
use vstd::prelude::*;

verus! {

/// The character for a decimal digit `d < 10`.
pub open spec fn digit_char(d: nat) -> char {
    "0123456789"@[d as int]
}

/// The decimal text of `n`, most significant digit first, without leading zeros.
pub open spec fn decimal(n: nat) -> Seq<char>
    decreases n,
{
    if n < 10 {
        seq![digit_char(n)]
    } else {
        decimal(n / 10) + seq![digit_char(n % 10)]
    }
}

/// The identity key of the kill of container `container` of pod `uid` at
/// restart count `restart`: `<length of uid>.<uid>.<container>.<restart>`.
/// The leading length tells where the uid ends, whatever characters the uid
/// and the container name hold.
pub open spec fn key_of(uid: Seq<char>, container: Seq<char>, restart: nat) -> Seq<char> {
    decimal(uid.len()) + seq!['.'] + uid + seq!['.'] + container + seq!['.'] + decimal(restart)
}

proof fn lemma_digit_chars_distinct(a: nat, b: nat)
    requires
        a < 10,
        b < 10,
        a != b,
    ensures
        digit_char(a) != digit_char(b),
{
    reveal_strlit("0123456789");
}

proof fn lemma_decimal_len(n: nat)
    ensures
        decimal(n).len() >= 1,
        n >= 10 ==> decimal(n).len() >= 2,
    decreases n,
{
    if n >= 10 {
        lemma_decimal_len(n / 10);
    }
}

/// Distinct numbers have distinct decimal texts.
pub proof fn lemma_decimal_injective(a: nat, b: nat)
    requires
        a != b,
    ensures
        decimal(a) != decimal(b),
    decreases a + b,
{
    lemma_decimal_len(a);
    lemma_decimal_len(b);
    let da = decimal(a);
    let db = decimal(b);
    if a % 10 != b % 10 {
        lemma_digit_chars_distinct(a % 10, b % 10);
        if a < 10 && b < 10 {
            assert(da[0] != db[0]);
        } else if a < 10 {
            assert(da.len() != db.len());
        } else if b < 10 {
            assert(da.len() != db.len());
        } else {
            assert(da[da.len() - 1] == digit_char(a % 10));
            assert(db[db.len() - 1] == digit_char(b % 10));
        }
    } else {
        if a < 10 || b < 10 {
            assert(da.len() != db.len());
        } else {
            lemma_decimal_injective(a / 10, b / 10);
            if da == db {
                assert(decimal(a / 10) =~= da.drop_last());
                assert(decimal(b / 10) =~= db.drop_last());
            }
        }
    }
}

/// `s` holds no dot.
pub open spec fn dot_free(s: Seq<char>) -> bool {
    forall|i: int| 0 <= i < s.len() ==> s[i] != '.'
}

/// Decimal text holds no dot.
pub proof fn lemma_decimal_dot_free(n: nat)
    ensures
        dot_free(decimal(n)),
    decreases n,
{
    reveal_strlit("0123456789");
    if n >= 10 {
        lemma_decimal_dot_free(n / 10);
    }
    assert(digit_char(n % 10) != '.');
}

proof fn lemma_split_first_dot(a1: Seq<char>, b1: Seq<char>, a2: Seq<char>, b2: Seq<char>)
    requires
        dot_free(a1),
        dot_free(a2),
        a1 + seq!['.'] + b1 == a2 + seq!['.'] + b2,
    ensures
        a1 == a2,
        b1 == b2,
{
    let w = a1 + seq!['.'] + b1;
    if a1.len() < a2.len() {
        assert(w[a1.len() as int] == '.');
        assert((a2 + seq!['.'] + b2)[a1.len() as int] == a2[a1.len() as int]);
    } else if a2.len() < a1.len() {
        assert((a2 + seq!['.'] + b2)[a2.len() as int] == '.');
        assert(w[a2.len() as int] == a1[a2.len() as int]);
    } else {
        assert(a1 =~= w.subrange(0, a1.len() as int));
        assert(a2 =~= w.subrange(0, a2.len() as int));
        assert(b1 =~= w.subrange(a1.len() as int + 1, w.len() as int));
        assert(b2 =~= (a2 + seq!['.'] + b2).subrange(a2.len() as int + 1, w.len() as int));
    }
}

proof fn lemma_split_last_dot(a1: Seq<char>, b1: Seq<char>, a2: Seq<char>, b2: Seq<char>)
    requires
        dot_free(b1),
        dot_free(b2),
        a1 + seq!['.'] + b1 == a2 + seq!['.'] + b2,
    ensures
        a1 == a2,
        b1 == b2,
{
    let w = a1 + seq!['.'] + b1;
    let w2 = a2 + seq!['.'] + b2;
    assert(w.len() == w2.len());
    if b1.len() < b2.len() {
        let p = w.len() - 1 - b1.len();
        assert(w[p] == '.');
        assert(w2[p] == b2[p - a2.len() - 1]);
    } else if b2.len() < b1.len() {
        let p = w.len() - 1 - b2.len();
        assert(w2[p] == '.');
        assert(w[p] == b1[p - a1.len() - 1]);
    } else {
        assert(a1 =~= w.subrange(0, a1.len() as int));
        assert(a2 =~= w2.subrange(0, a2.len() as int));
        assert(b1 =~= w.subrange(a1.len() as int + 1, w.len() as int));
        assert(b2 =~= w2.subrange(a2.len() as int + 1, w.len() as int));
    }
}

/// Two kills share a key exactly when they are of the same pod uid, the same
/// container name and the same restart count: a key names one kill.
pub proof fn lemma_key_injective(u1: Seq<char>, c1: Seq<char>, r1: nat, u2: Seq<char>, c2: Seq<char>, r2: nat)
    ensures
        key_of(u1, c1, r1) == key_of(u2, c2, r2) <==> (u1 == u2 && c1 == c2 && r1 == r2),
{
    if key_of(u1, c1, r1) == key_of(u2, c2, r2) {
        let t1 = c1 + seq!['.'] + decimal(r1);
        let t2 = c2 + seq!['.'] + decimal(r2);
        let s1 = u1 + seq!['.'] + t1;
        let s2 = u2 + seq!['.'] + t2;
        assert(key_of(u1, c1, r1) =~= decimal(u1.len()) + seq!['.'] + s1);
        assert(key_of(u2, c2, r2) =~= decimal(u2.len()) + seq!['.'] + s2);
        lemma_decimal_dot_free(u1.len());
        lemma_decimal_dot_free(u2.len());
        lemma_split_first_dot(decimal(u1.len()), s1, decimal(u2.len()), s2);
        if u1.len() != u2.len() {
            lemma_decimal_injective(u1.len(), u2.len());
        }
        assert(u1 =~= s1.subrange(0, u1.len() as int));
        assert(u2 =~= s2.subrange(0, u2.len() as int));
        assert(t1 =~= s1.subrange(u1.len() as int + 1, s1.len() as int));
        assert(t2 =~= s2.subrange(u2.len() as int + 1, s2.len() as int));
        lemma_decimal_dot_free(r1);
        lemma_decimal_dot_free(r2);
        lemma_split_last_dot(c1, decimal(r1), c2, decimal(r2));
        if r1 != r2 {
            lemma_decimal_injective(r1, r2);
        }
    }
}

/// Appends the decimal text of `n` to `s`.
pub fn append_decimal(s: &mut String, n: u64)
    ensures
        final(s)@ == old(s)@ + decimal(n as nat),
    decreases n,
{
    if n >= 10 {
        append_decimal(s, n / 10);
    }
    let d: usize = (n % 10) as usize;
    let digits = "0123456789";
    proof {
        reveal_strlit("0123456789");
    }
    let one = digits.substring_char(d, d + 1);
    assert(one@ =~= seq![digit_char(d as nat)]);
    s.append(one);
    assert(s@ =~= old(s)@ + decimal(n as nat));
}

/// The decimal text of `n`.
pub fn decimal_string(n: u32) -> (r: String)
    ensures
        r@ == decimal(n as nat),
{
    let mut s = String::new();
    append_decimal(&mut s, n as u64);
    assert(s@ =~= decimal(n as nat));
    s
}

/// The identity key of a kill: the length of the pod uid, the pod uid, the
/// container name and the restart count, joined by dots.
pub fn identity_key(uid: &String, container: &String, restart: u32) -> (r: String)
    ensures
        r@ == key_of(uid@, container@, restart as nat),
{
    let mut k = String::new();
    append_decimal(&mut k, uid.as_str().unicode_len() as u64);
    proof {
        reveal_strlit(".");
    }
    k.append(".");
    k.append(uid.as_str());
    k.append(".");
    k.append(container.as_str());
    k.append(".");
    append_decimal(&mut k, restart as u64);
    assert(k@ =~= key_of(uid@, container@, restart as nat));
    k
}

} // verus!
