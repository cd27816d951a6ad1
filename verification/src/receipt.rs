use vstd::prelude::*;

verus! {

/// The character of a decimal digit.
pub open spec fn digit_char(d: nat) -> char {
    if d == 0 { '0' }
    else if d == 1 { '1' }
    else if d == 2 { '2' }
    else if d == 3 { '3' }
    else if d == 4 { '4' }
    else if d == 5 { '5' }
    else if d == 6 { '6' }
    else if d == 7 { '7' }
    else if d == 8 { '8' }
    else { '9' }
}

/// The decimal notation of a natural number, most significant digit first,
/// without leading zeros.
pub open spec fn decimal(n: nat) -> Seq<char>
    decreases n,
{
    if n < 10 {
        seq![digit_char(n)]
    } else {
        decimal(n / 10).push(digit_char(n % 10))
    }
}

/// The identifier of the receipt issued with the given counter value: `cr-` and the
/// counter in decimal.
pub open spec fn spec_receipt_id(counter: nat) -> Seq<char> {
    "cr-"@ + decimal(counter)
}

fn digit_str(d: u64) -> (s: &'static str)
    requires
        d < 10,
    ensures
        s@ == seq![digit_char(d as nat)],
{
    if d == 0 {
        proof { reveal_strlit("0"); }
        "0"
    } else if d == 1 {
        proof { reveal_strlit("1"); }
        "1"
    } else if d == 2 {
        proof { reveal_strlit("2"); }
        "2"
    } else if d == 3 {
        proof { reveal_strlit("3"); }
        "3"
    } else if d == 4 {
        proof { reveal_strlit("4"); }
        "4"
    } else if d == 5 {
        proof { reveal_strlit("5"); }
        "5"
    } else if d == 6 {
        proof { reveal_strlit("6"); }
        "6"
    } else if d == 7 {
        proof { reveal_strlit("7"); }
        "7"
    } else if d == 8 {
        proof { reveal_strlit("8"); }
        "8"
    } else {
        proof { reveal_strlit("9"); }
        "9"
    }
}

/// Appends the decimal notation of `n` to `s`.
fn push_decimal(s: &mut String, n: u64)
    ensures
        final(s)@ == old(s)@ + decimal(n as nat),
    decreases n,
{
    if n >= 10 {
        push_decimal(s, n / 10);
    }
    s.append(digit_str(n % 10));
    assert(s@ =~= old(s)@ + decimal(n as nat));
}

/// The identifier of the receipt issued with counter value `counter`, e.g. `cr-42`.
pub fn receipt_id(counter: u64) -> (id: String)
    ensures
        id@ == spec_receipt_id(counter as nat),
{
    let mut id = "cr-".to_owned();
    push_decimal(&mut id, counter);
    id
}

proof fn lemma_decimal_nonempty(n: nat)
    ensures
        decimal(n).len() >= 1,
        n >= 10 ==> decimal(n).len() >= 2,
    decreases n,
{
    if n >= 10 {
        lemma_decimal_nonempty(n / 10);
    }
}

/// Decimal notation is injective: different numbers are written differently.
pub proof fn lemma_decimal_injective(a: nat, b: nat)
    requires
        decimal(a) == decimal(b),
    ensures
        a == b,
    decreases a,
{
    lemma_decimal_nonempty(a);
    lemma_decimal_nonempty(b);
    if a < 10 && b < 10 {
        assert(decimal(a)[0] == digit_char(a));
        assert(decimal(b)[0] == digit_char(b));
    } else if a >= 10 && b >= 10 {
        assert(decimal(a).last() == digit_char(a % 10));
        assert(decimal(b).last() == digit_char(b % 10));
        assert(decimal(a / 10) =~= decimal(a).drop_last());
        assert(decimal(b / 10) =~= decimal(b).drop_last());
        lemma_decimal_injective(a / 10, b / 10);
    }
}

/// Receipts issued with different counter values carry different identifiers.
pub proof fn lemma_receipt_ids_distinct(a: u64, b: u64)
    requires
        a != b,
    ensures
        spec_receipt_id(a as nat) != spec_receipt_id(b as nat),
{
    let p = "cr-"@;
    if spec_receipt_id(a as nat) == spec_receipt_id(b as nat) {
        assert(decimal(a as nat) =~= spec_receipt_id(a as nat).subrange(p.len() as int, spec_receipt_id(a as nat).len() as int));
        assert(decimal(b as nat) =~= spec_receipt_id(b as nat).subrange(p.len() as int, spec_receipt_id(b as nat).len() as int));
        lemma_decimal_injective(a as nat, b as nat);
    }
}

/// The number that a string of decimal digits stands for, most significant first.
pub open spec fn digits_value(s: Seq<char>) -> int
    decreases s.len(),
{
    if s.len() == 0 {
        0
    } else {
        digits_value(s.drop_last()) * 10 + (s.last() as int - '0' as int)
    }
}

proof fn lemma_digit_value(d: nat)
    requires
        d < 10,
    ensures
        digit_char(d) as int - '0' as int == d,
        '0' <= digit_char(d) <= '9',
{
}

/// Decimal notation writes a number with the digits `0` to `9`, without a leading zero,
/// and reading the digits back gives the number.
pub proof fn lemma_decimal_reads_back(n: nat)
    ensures
        decimal(n).len() >= 1,
        forall|i: int| 0 <= i < decimal(n).len() ==> '0' <= #[trigger] decimal(n)[i] <= '9',
        decimal(n)[0] != '0' || n == 0,
        digits_value(decimal(n)) == n,
    decreases n,
{
    lemma_decimal_nonempty(n);
    lemma_digit_value(n % 10);
    if n < 10 {
        lemma_digit_value(n);
        assert(decimal(n).drop_last() =~= Seq::<char>::empty());
        assert(digits_value(Seq::<char>::empty()) == 0);
        assert(digits_value(decimal(n)) == digits_value(decimal(n).drop_last()) * 10 + (decimal(n).last() as int - '0' as int));
    } else {
        lemma_decimal_reads_back(n / 10);
        assert(decimal(n).last() == digit_char(n % 10));
        assert(decimal(n).drop_last() =~= decimal(n / 10));
        assert forall|i: int| 0 <= i < decimal(n).len() implies '0' <= #[trigger] decimal(n)[i] <= '9' by {
            if i < decimal(n / 10).len() {
                assert(decimal(n)[i] == decimal(n / 10)[i]);
            }
        }
        assert(decimal(n)[0] == decimal(n / 10)[0]);
        assert(digits_value(decimal(n)) == digits_value(decimal(n / 10)) * 10 + (n % 10));
        assert((n / 10) * 10 + n % 10 == n);
    }
}

/// A receipt identifier is `cr-` followed by the counter's decimal digits, which read
/// back as the counter.
pub proof fn lemma_receipt_id_reads_back(counter: u64)
    ensures
        spec_receipt_id(counter as nat).len() >= 4,
        spec_receipt_id(counter as nat).subrange(0, 3) == seq!['c', 'r', '-'],
        digits_value(spec_receipt_id(counter as nat).subrange(3, spec_receipt_id(counter as nat).len() as int))
            == counter,
        forall|i: int|
            3 <= i < spec_receipt_id(counter as nat).len() ==> '0' <= #[trigger] spec_receipt_id(counter as nat)[i]
                <= '9',
{
    reveal_strlit("cr-");
    lemma_decimal_reads_back(counter as nat);
    let id = spec_receipt_id(counter as nat);
    assert(id.subrange(0, 3) =~= seq!['c', 'r', '-']);
    assert(id.subrange(3, id.len() as int) =~= decimal(counter as nat));
    assert forall|i: int| 3 <= i < id.len() implies '0' <= #[trigger] id[i] <= '9' by {
        assert(id[i] == decimal(counter as nat)[i - 3]);
    }
}

} // verus!
