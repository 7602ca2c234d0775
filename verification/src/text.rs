//! Decimal numbers, and the order in which names are kept.

use vstd::prelude::*;
use vstd::string::*;
use vstd::utf8::*;

verus! {

/// The character that writes the digit `d`.
pub open spec fn digit(d: nat) -> char {
    ('0' as int + d) as char
}

/// `n` in decimal, without leading zeros.
pub open spec fn decimal_nat(n: nat) -> Seq<char>
    decreases n,
{
    if n < 10 {
        seq![digit(n)]
    } else {
        decimal_nat(n / 10).push(digit(n % 10))
    }
}

/// `n` in decimal, with a leading `-` where it is negative.
pub open spec fn decimal(n: int) -> Seq<char> {
    if n < 0 {
        seq!['-'] + decimal_nat((-n) as nat)
    } else {
        decimal_nat(n as nat)
    }
}

fn digit_text(d: u64) -> (res: &'static str)
    requires
        d < 10,
    ensures
        res@ == seq![digit(d as nat)],
{
    proof {
        reveal_strlit("0");
        reveal_strlit("1");
        reveal_strlit("2");
        reveal_strlit("3");
        reveal_strlit("4");
        reveal_strlit("5");
        reveal_strlit("6");
        reveal_strlit("7");
        reveal_strlit("8");
        reveal_strlit("9");
    }
    match d {
        0 => "0",
        1 => "1",
        2 => "2",
        3 => "3",
        4 => "4",
        5 => "5",
        6 => "6",
        7 => "7",
        8 => "8",
        _ => "9",
    }
}

fn decimal_text_u64(n: u64) -> (res: String)
    ensures
        res@ == decimal_nat(n as nat),
    decreases n,
{
    if n < 10 {
        String::from_str(digit_text(n))
    } else {
        let mut res = decimal_text_u64(n / 10);
        res.append(digit_text(n % 10));
        res
    }
}

/// Writes `n` in decimal.
pub fn decimal_text(n: i64) -> (res: String)
    ensures
        res@ == decimal(n as int),
{
    if n < 0 {
        let magnitude: u64 = (-(n as i128)) as u64;
        let mut res = String::from_str("-");
        res.append(decimal_text_u64(magnitude).as_str());
        proof {
            reveal_strlit("-");
            assert("-"@ == seq!['-']);
        }
        res
    } else {
        decimal_text_u64(n as u64)
    }
}

/// `prefix` followed by `rest`.
pub fn joined(prefix: &str, rest: &str) -> (res: String)
    ensures
        res@ == prefix@ + rest@,
{
    let mut res = String::from_str(prefix);
    res.append(rest);
    res
}

/// `i` is the first place where `a` and `b` part, and `a` comes first there:
/// it has ended, or holds the smaller byte.
pub open spec fn bytes_part_at(a: Seq<u8>, b: Seq<u8>, i: int) -> bool {
    &&& 0 <= i <= a.len()
    &&& i < b.len()
    &&& forall|j: int| 0 <= j < i ==> a[j] == b[j]
    &&& i == a.len() || a[i] < b[i]
}

/// Byte strings in lexicographic order.
pub open spec fn bytes_before(a: Seq<u8>, b: Seq<u8>) -> bool {
    exists|i: int| bytes_part_at(a, b, i)
}

/// `a` comes before `b` in the order of strings: lexicographic, by the bytes of
/// their UTF-8 encodings.
pub open spec fn name_before(a: Seq<char>, b: Seq<char>) -> bool {
    bytes_before(encode_utf8(a), encode_utf8(b))
}

/// How two names stand in name order.
#[derive(Clone, Copy, Debug, PartialEq, Eq, Structural)]
pub enum NameOrder {
    Before,
    Same,
    After,
}

/// Compares two names in name order.
pub fn compare_names(a: &str, b: &str) -> (res: NameOrder)
    ensures
        match res {
            NameOrder::Before => name_before(a@, b@),
            NameOrder::Same => a@ == b@,
            NameOrder::After => name_before(b@, a@),
        },
{
    let x = a.as_bytes();
    let y = b.as_bytes();
    let mut i: usize = 0;
    while i < x.len() && i < y.len()
        invariant
            i <= x@.len(),
            i <= y@.len(),
            x@ == encode_utf8(a@),
            y@ == encode_utf8(b@),
            forall|j: int| 0 <= j < i ==> x@[j] == y@[j],
        decreases x@.len() - i,
    {
        if x[i] < y[i] {
            assert(bytes_part_at(x@, y@, i as int));
            return NameOrder::Before;
        }
        if y[i] < x[i] {
            assert(bytes_part_at(y@, x@, i as int));
            return NameOrder::After;
        }
        i = i + 1;
    }
    if i < y.len() {
        assert(bytes_part_at(x@, y@, i as int));
        NameOrder::Before
    } else if i < x.len() {
        assert(bytes_part_at(y@, x@, i as int));
        NameOrder::After
    } else {
        proof {
            assert(x@ =~= y@);
            encode_utf8_decode_utf8(a@);
            encode_utf8_decode_utf8(b@);
        }
        NameOrder::Same
    }
}

/// Whether two strings hold the same characters.
pub fn same_text(a: &str, b: &str) -> (res: bool)
    ensures
        res == (a@ == b@),
{
    match compare_names(a, b) {
        NameOrder::Same => true,
        NameOrder::Before => {
            proof {
                lemma_name_order_is_strict(a@, b@);
            }
            false
        },
        NameOrder::After => {
            proof {
                lemma_name_order_is_strict(b@, a@);
            }
            false
        },
    }
}

/// No name comes before itself, and no two names come before each other.
pub proof fn lemma_name_order_is_strict(a: Seq<char>, b: Seq<char>)
    requires
        name_before(a, b),
    ensures
        a != b,
        !name_before(b, a),
{
    let x = encode_utf8(a);
    let y = encode_utf8(b);
    let i = choose|i: int| bytes_part_at(x, y, i);
    if name_before(b, a) {
        let j = choose|j: int| bytes_part_at(y, x, j);
        assert(i == j);
    }
    if a == b {
        assert(bytes_part_at(y, x, i));
    }
}

/// Of two different names one comes before the other.
pub proof fn lemma_name_order_is_total(a: Seq<char>, b: Seq<char>)
    ensures
        a == b || name_before(a, b) || name_before(b, a),
{
    if a != b {
        encode_utf8_decode_utf8(a);
        encode_utf8_decode_utf8(b);
        lemma_bytes_part(encode_utf8(a), encode_utf8(b), 0);
    }
}

proof fn lemma_bytes_part(x: Seq<u8>, y: Seq<u8>, i: int)
    requires
        x != y,
        0 <= i <= x.len(),
        i <= y.len(),
        forall|j: int| 0 <= j < i ==> x[j] == y[j],
    ensures
        bytes_before(x, y) || bytes_before(y, x),
    decreases x.len() - i,
{
    if i == x.len() && i == y.len() {
        assert(x =~= y);
    } else if i == x.len() || (i < y.len() && x[i] < y[i]) {
        assert(bytes_part_at(x, y, i));
    } else if i == y.len() || y[i] < x[i] {
        assert(bytes_part_at(y, x, i));
    } else {
        lemma_bytes_part(x, y, i + 1);
    }
}

/// Name order is transitive.
pub proof fn lemma_name_order_is_transitive(a: Seq<char>, b: Seq<char>, c: Seq<char>)
    requires
        name_before(a, b),
        name_before(b, c),
    ensures
        name_before(a, c),
{
    let x = encode_utf8(a);
    let y = encode_utf8(b);
    let z = encode_utf8(c);
    let i = choose|i: int| bytes_part_at(x, y, i);
    let j = choose|j: int| bytes_part_at(y, z, j);
    let k = if i <= j {
        i
    } else {
        j
    };
    assert(bytes_part_at(x, z, k));
}

} // verus!
