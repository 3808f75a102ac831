//! Identifiers of persisted conversation records.
//!
//! A conversation record is named by the account it belongs to and the value
//! drawn from the process-wide, monotonically increasing conversation
//! counter, joined by an underscore. Distinct counter values give distinct
//! identifiers whatever the account identifiers are, so concurrent account
//! runs sharing one atomic counter can never produce a collision.

use vstd::arithmetic::div_mod::lemma_fundamental_div_mod;
use vstd::prelude::*;
use vstd::string::StringExecFns;

verus! {

/// The character of one decimal digit.
pub open spec fn decimal_digit(d: nat) -> char {
    if d == 0 {
        '0'
    } else if d == 1 {
        '1'
    } else if d == 2 {
        '2'
    } else if d == 3 {
        '3'
    } else if d == 4 {
        '4'
    } else if d == 5 {
        '5'
    } else if d == 6 {
        '6'
    } else if d == 7 {
        '7'
    } else if d == 8 {
        '8'
    } else {
        '9'
    }
}

/// The decimal rendering of `n`, most significant digit first, without
/// leading zeros (a single `'0'` for zero).
pub open spec fn decimal_rep(n: nat) -> Seq<char>
    decreases n,
{
    if n < 10 {
        seq![decimal_digit(n)]
    } else {
        decimal_rep(n / 10) + seq![decimal_digit(n % 10)]
    }
}

/// The identifier of a conversation record: the account identifier and the
/// drawn counter value, joined by an underscore.
pub open spec fn conversation_id_spec(account: Seq<char>, counter: nat) -> Seq<char> {
    account + seq!['_'] + decimal_rep(counter)
}

fn digit_str(d: u64) -> (r: &'static str)
    requires
        d < 10,
    ensures
        r@ == seq![decimal_digit(d as nat)],
{
    let r: &'static str = if d == 0 {
        "0"
    } else if d == 1 {
        "1"
    } else if d == 2 {
        "2"
    } else if d == 3 {
        "3"
    } else if d == 4 {
        "4"
    } else if d == 5 {
        "5"
    } else if d == 6 {
        "6"
    } else if d == 7 {
        "7"
    } else if d == 8 {
        "8"
    } else {
        "9"
    };
    proof {
        reveal_strlit("0");
        reveal_strlit("1");
        reveal_strlit("2");
        reveal_strlit("3");
        reveal_strlit("4");
        reveal_strlit("5");
        reveal_strlit("6");
        reveal_strlit("7");
        reveal_strlit("8");
        reveal_strlit("9");
        assert(r@ =~= seq![decimal_digit(d as nat)]);
    }
    r
}

/// The decimal rendering of `n`, as executable code.
pub fn decimal_string(n: u64) -> (r: String)
    ensures
        r@ == decimal_rep(n as nat),
    decreases n,
{
    if n < 10 {
        digit_str(n).to_owned()
    } else {
        let mut s = decimal_string(n / 10);
        s.append(digit_str(n % 10));
        s
    }
}

/// Generate the identifier under which one conversation record is
/// persisted.
pub fn conversation_id(account: &str, counter: u64) -> (r: String)
    ensures
        r@ == conversation_id_spec(account@, counter as nat),
{
    let mut s: String = account.to_owned();
    s.append("_");
    let digits = decimal_string(counter);
    s.append(digits.as_str());
    proof {
        reveal_strlit("_");
        assert(s@ =~= conversation_id_spec(account@, counter as nat));
    }
    s
}

/// Every character of a decimal rendering is a digit, never an underscore,
/// and the rendering is never empty.
proof fn lemma_decimal_rep_digits(n: nat)
    ensures
        decimal_rep(n).len() >= 1,
        forall|j: int| 0 <= j < decimal_rep(n).len() ==> #[trigger] decimal_rep(n)[j] != '_',
    decreases n,
{
    if n >= 10 {
        lemma_decimal_rep_digits(n / 10);
        assert forall|j: int| 0 <= j < decimal_rep(n).len() implies #[trigger] decimal_rep(n)[j]
            != '_' by {
            if j < decimal_rep(n / 10).len() {
                assert(decimal_rep(n)[j] == decimal_rep(n / 10)[j]);
            } else {
                assert(decimal_rep(n)[j] == decimal_digit(n % 10));
            }
        }
    }
}

/// Distinct numbers have distinct decimal renderings.
proof fn lemma_decimal_rep_injective(n1: nat, n2: nat)
    requires
        n1 != n2,
    ensures
        decimal_rep(n1) != decimal_rep(n2),
    decreases n1 + n2,
{
    lemma_decimal_rep_digits(n1);
    lemma_decimal_rep_digits(n2);
    if n1 < 10 && n2 < 10 {
        assert(decimal_rep(n1)[0] != decimal_rep(n2)[0]);
    } else if n1 < 10 {
        lemma_decimal_rep_digits(n2 / 10);
        assert(decimal_rep(n2).len() >= 2);
    } else if n2 < 10 {
        lemma_decimal_rep_digits(n1 / 10);
        assert(decimal_rep(n1).len() >= 2);
    } else if decimal_rep(n1) == decimal_rep(n2) {
        let a = decimal_rep(n1 / 10);
        let b = decimal_rep(n2 / 10);
        assert(decimal_rep(n1).last() == decimal_digit(n1 % 10));
        assert(decimal_rep(n2).last() == decimal_digit(n2 % 10));
        assert(n1 % 10 == n2 % 10);
        assert(a =~= decimal_rep(n1).drop_last());
        assert(b =~= decimal_rep(n2).drop_last());
        if n1 / 10 == n2 / 10 {
            lemma_fundamental_div_mod(n1 as int, 10);
            lemma_fundamental_div_mod(n2 as int, 10);
            assert(false);
        } else {
            lemma_decimal_rep_injective(n1 / 10, n2 / 10);
            assert(false);
        }
    }
}

/// Law: two conversations persisted under distinct counter values bear
/// distinct identifiers, whichever accounts they belong to. The counter is
/// drawn with fetch-and-increment semantics, so every persisted conversation
/// of one run sees its own value, and no two identifiers of the run collide.
pub proof fn lemma_conversation_ids_distinct(a1: Seq<char>, n1: nat, a2: Seq<char>, n2: nat)
    requires
        n1 != n2,
    ensures
        conversation_id_spec(a1, n1) != conversation_id_spec(a2, n2),
{
    let s1 = conversation_id_spec(a1, n1);
    let s2 = conversation_id_spec(a2, n2);
    let d1 = decimal_rep(n1);
    let d2 = decimal_rep(n2);
    lemma_decimal_rep_digits(n1);
    lemma_decimal_rep_digits(n2);
    let k1 = a1.len() as int;
    let k2 = a2.len() as int;
    if s1 == s2 {
        assert(s1[k1] == '_');
        assert(s2[k2] == '_');
        assert forall|j: int| k1 < j < s1.len() implies s1[j] != '_' by {
            assert(s1[j] == d1[j - k1 - 1]);
        }
        assert forall|j: int| k2 < j < s2.len() implies s2[j] != '_' by {
            assert(s2[j] == d2[j - k2 - 1]);
        }
        if k1 < k2 {
            assert(s2[k2] != '_');
        } else if k2 < k1 {
            assert(s1[k1] != '_');
        } else {
            lemma_decimal_rep_injective(n1, n2);
            assert(d1 =~= s1.subrange(k1 + 1, s1.len() as int));
            assert(d2 =~= s2.subrange(k2 + 1, s2.len() as int));
        }
    }
}

} // verus!
