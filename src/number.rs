//! Reading a JSON number from its text into a `JsonValue`.
use vstd::prelude::*;
use vstd::string::StrSliceExecFns;
use crate::json::JsonValue;
use crate::text::chars_of;

verus! {

/// Every character is a decimal digit, and there is at least one.
pub open spec fn all_digits(s: Seq<char>) -> bool {
    s.len() > 0 && forall|i: int| 0 <= i < s.len() ==> '0' <= #[trigger] s[i] && s[i] <= '9'
}

/// The value of a run of decimal digits.
pub open spec fn digits_value(s: Seq<char>) -> int
    decreases s.len(),
{
    if s.len() == 0 {
        0
    } else {
        10 * digits_value(s.drop_last()) + (s.last() as int - '0' as int)
    }
}

/// Whether number text starts with a minus sign.
pub open spec fn sign_of(t: Seq<char>) -> bool {
    t.len() > 0 && t[0] == '-'
}

/// The number text without its minus sign.
pub open spec fn unsigned_part(t: Seq<char>) -> Seq<char> {
    if sign_of(t) {
        t.drop_first()
    } else {
        t
    }
}

proof fn lemma_digits_value_step(s: Seq<char>, k: int)
    requires
        0 <= k < s.len(),
    ensures
        digits_value(s.subrange(0, k + 1)) == 10 * digits_value(s.subrange(0, k)) + (s[k] as int
            - '0' as int),
{
    assert(s.subrange(0, k + 1).drop_last() =~= s.subrange(0, k));
}

proof fn lemma_digits_value_grows(s: Seq<char>, k: int)
    requires
        all_digits(s),
        0 <= k <= s.len(),
    ensures
        0 <= digits_value(s.subrange(0, k)) <= digits_value(s),
    decreases s.len() - k,
{
    lemma_digits_value_nonneg(s, k);
    if k < s.len() {
        lemma_digits_value_step(s, k);
        lemma_digits_value_grows(s, k + 1);
    } else {
        assert(s.subrange(0, k) =~= s);
    }
}

proof fn lemma_digits_value_nonneg(s: Seq<char>, k: int)
    requires
        all_digits(s),
        0 <= k <= s.len(),
    ensures
        0 <= digits_value(s.subrange(0, k)),
    decreases k,
{
    if k > 0 {
        lemma_digits_value_step(s, k - 1);
        lemma_digits_value_nonneg(s, k - 1);
    }
}

/// Reads number text: an optional minus sign and digits give an integer, held as `Int` when
/// its magnitude fits in 128 bits and as `WideInt` otherwise; any other text is `NonInteger`.
pub fn number_from_text(text: &str) -> (r: JsonValue)
    ensures
        all_digits(unsigned_part(text@)) ==> (r is Int <==> digits_value(unsigned_part(text@))
            <= u128::MAX),
        match r {
            JsonValue::Int { negative, magnitude } => all_digits(unsigned_part(text@)) && negative
                == sign_of(text@) && magnitude as int == digits_value(unsigned_part(text@)),
            JsonValue::WideInt { negative, digits } => all_digits(unsigned_part(text@)) && negative
                == sign_of(text@) && digits@ == unsigned_part(text@) && digits_value(
                unsigned_part(text@),
            ) > u128::MAX,
            JsonValue::NonInteger(t) => !all_digits(unsigned_part(text@)) && t@ == text@,
            _ => false,
        },
{
    let cs = chars_of(text);
    let n = cs.len();
    let negative = n > 0 && cs[0] == '-';
    let start: usize = if negative {
        1
    } else {
        0
    };
    let ghost ds = unsigned_part(text@);
    proof {
        assert(ds =~= cs@.subrange(start as int, n as int));
    }
    if start == n {
        return JsonValue::NonInteger(text.to_owned());
    }
    let mut i: usize = start;
    while i < n
        invariant
            start <= i <= n,
            start < n,
            cs@ == text@,
            n == cs@.len(),
            ds == unsigned_part(text@),
            negative == sign_of(text@),
            ds == cs@.subrange(start as int, n as int),
            forall|j: int| 0 <= j < i - start ==> '0' <= #[trigger] ds[j] && ds[j] <= '9',
        decreases n - i,
    {
        let c = cs[i];
        if !('0' <= c && c <= '9') {
            assert(ds[i - start] == c);
            return JsonValue::NonInteger(text.to_owned());
        }
        i = i + 1;
    }
    assert(all_digits(ds));
    let mut acc: u128 = 0;
    let mut k: usize = 0;
    while k < n - start
        invariant
            start < n,
            cs@ == text@,
            n == cs@.len(),
            ds == unsigned_part(text@),
            negative == sign_of(text@),
            ds == cs@.subrange(start as int, n as int),
            all_digits(ds),
            k <= n - start,
            acc as int == digits_value(ds.subrange(0, k as int)),
        decreases n - start - k,
    {
        let c = cs[start + k];
        assert(c == ds[k as int]);
        let d: u128 = (c as u32 - '0' as u32) as u128;
        proof {
            lemma_digits_value_step(ds, k as int);
        }
        if acc > (u128::MAX - d) / 10 {
            proof {
                let m = u128::MAX as int - d as int;
                assert(acc as int * 10 + d as int > u128::MAX as int) by (nonlinear_arith)
                    requires
                        acc as int > m / 10,
                        m >= 0,
                        m == u128::MAX as int - d as int,
                ;
                lemma_digits_value_grows(ds, k + 1);
            }
            return JsonValue::WideInt { negative, digits: text.substring_char(start, n).to_owned() };
        }
        proof {
            let m = u128::MAX as int - d as int;
            assert(acc as int * 10 + d as int <= u128::MAX as int) by (nonlinear_arith)
                requires
                    acc as int <= m / 10,
                    m >= 0,
                    m == u128::MAX as int - d as int,
            ;
        }
        acc = acc * 10 + d;
        k = k + 1;
    }
    proof {
        assert(ds.subrange(0, ds.len() as int) =~= ds);
    }
    JsonValue::Int { negative, magnitude: acc }
}

} // verus!
