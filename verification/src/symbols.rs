//! Symbol bindings: a table from single-character symbols to 64-bit signed
//! values, and the parser for textual `symbol=value` assignment tokens.
//!
//! Binding the same symbol twice keeps the later value (last write wins),
//! matching how repeated assignments are applied in order.

use vstd::prelude::*;

use crate::errors::RunError;

verus! {

/// Mapping from a symbol identifier to its bound integer value.
pub struct SymbolTable {
    entries: Vec<(char, i64)>,
}

/// The map denoted by a sequence of bindings, later entries winning.
pub open spec fn table_of(s: Seq<(char, i64)>) -> Map<char, i64>
    decreases s.len(),
{
    if s.len() == 0 {
        Map::empty()
    } else {
        table_of(s.drop_last()).insert(s.last().0, s.last().1)
    }
}

impl View for SymbolTable {
    type V = Map<char, i64>;

    closed spec fn view(&self) -> Map<char, i64> {
        table_of(self.entries@)
    }
}

proof fn lemma_table_of_prefix(s: Seq<(char, i64)>, i: int, c: char)
    requires
        0 <= i <= s.len(),
        forall|k: int| i <= k < s.len() ==> (#[trigger] s[k]).0 != c,
    ensures
        table_of(s).contains_key(c) == table_of(s.take(i)).contains_key(c),
        table_of(s).contains_key(c) ==> table_of(s)[c] == table_of(s.take(i))[c],
    decreases s.len() - i,
{
    if i < s.len() {
        let t = s.drop_last();
        assert(s[s.len() - 1].0 != c);
        lemma_table_of_prefix(t, i, c);
        assert(t.take(i) =~= s.take(i));
    } else {
        assert(s.take(i) =~= s);
    }
}

impl SymbolTable {
    /// An empty table: no symbol is bound.
    pub fn new() -> (r: SymbolTable)
        ensures
            r@ == Map::<char, i64>::empty(),
    {
        SymbolTable { entries: Vec::new() }
    }

    /// Binds `symbol` to `value`, replacing any earlier binding.
    pub fn bind(&mut self, symbol: char, value: i64)
        ensures
            final(self)@ == old(self)@.insert(symbol, value),
    {
        self.entries.push((symbol, value));
        proof {
            assert(self.entries@.drop_last() =~= old(self).entries@);
        }
    }

    /// Looks a symbol up; `None` when it was never bound.
    pub fn get(&self, symbol: char) -> (r: Option<i64>)
        ensures
            r == if self@.contains_key(symbol) {
                Some(self@[symbol])
            } else {
                None::<i64>
            },
    {
        let n = self.entries.len();
        let mut i: usize = n;
        while i > 0
            invariant
                i <= n,
                n == self.entries.len(),
                forall|k: int| i <= k < n ==> (#[trigger] self.entries@[k]).0 != symbol,
            decreases i,
        {
            i = i - 1;
            let (c, v) = self.entries[i];
            if c == symbol {
                proof {
                    lemma_table_of_prefix(self.entries@, i + 1, symbol);
                    let p = self.entries@.take(i + 1);
                    assert(p.drop_last() =~= self.entries@.take(i as int));
                    assert(p.last() == self.entries@[i as int]);
                }
                return Some(v);
            }
        }
        proof {
            lemma_table_of_prefix(self.entries@, 0, symbol);
            assert(self.entries@.take(0) =~= Seq::<(char, i64)>::empty());
        }
        None
    }
}

// ---------------------------------------------------------------------------
// Assignment-token grammar: `<symbol>=<integer>`, split at the first `=`.
// The symbol is the first character of the (non-empty) left part; longer
// identifiers are a known limitation and only their first character counts.
// ---------------------------------------------------------------------------

/// Is `c` a decimal digit?
pub open spec fn is_digit(c: char) -> bool {
    48 <= c as u32 <= 57
}

/// Numeric value of a decimal digit.
pub open spec fn digit_val(c: char) -> int {
    c as u32 - 48
}

/// Every character of `s` is a decimal digit.
pub open spec fn all_digits(s: Seq<char>) -> bool {
    forall|i: int| 0 <= i < s.len() ==> is_digit(#[trigger] s[i])
}

/// Value of a digit string, most significant digit first.
pub open spec fn digits_val(s: Seq<char>) -> int
    decreases s.len(),
{
    if s.len() == 0 {
        0
    } else {
        digits_val(s.drop_last()) * 10 + digit_val(s.last())
    }
}

/// The unbounded integer a token's right side denotes: an optional single
/// sign, then one or more decimal digits; anything else denotes nothing.
pub open spec fn int_of_chars(s: Seq<char>) -> Option<int> {
    if s.len() > 0 && (s[0] == '-' || s[0] == '+') {
        if s.len() > 1 && all_digits(s.skip(1)) {
            Some(
                if s[0] == '-' {
                    -digits_val(s.skip(1))
                } else {
                    digits_val(s.skip(1))
                },
            )
        } else {
            None
        }
    } else if s.len() > 0 && all_digits(s) {
        Some(digits_val(s))
    } else {
        None
    }
}

/// Position of the first `=` in `s`, if any.
pub open spec fn eq_split(s: Seq<char>) -> Option<int>
    decreases s.len(),
{
    if s.len() == 0 {
        None
    } else if s[0] == '=' {
        Some(0)
    } else {
        match eq_split(s.drop_first()) {
            Some(i) => Some(i + 1),
            None => None,
        }
    }
}

/// What a well-formed assignment token means: the bound symbol and the
/// (unbounded) integer value. `None` when the token is malformed: no `=`,
/// empty left part, or a right part that is not a decimal integer.
pub open spec fn binding_of(s: Seq<char>) -> Option<(char, int)> {
    match eq_split(s) {
        Some(i) => if i >= 1 {
            match int_of_chars(s.skip(i + 1)) {
                Some(v) => Some((s[0], v)),
                None => None,
            }
        } else {
            None
        },
        None => None,
    }
}

/// A token is accepted exactly when it is well formed and its value fits
/// a 64-bit signed integer.
pub open spec fn valid_binding(s: Seq<char>) -> bool {
    match binding_of(s) {
        Some((c, v)) => i64::MIN <= v <= i64::MAX,
        None => false,
    }
}

/// The binding an accepted token produces.
pub open spec fn parsed_binding(s: Seq<char>) -> (char, i64) {
    match binding_of(s) {
        Some((c, v)) => (c, v as i64),
        None => (' ', 0),
    }
}

proof fn lemma_eq_split(s: Seq<char>)
    ensures
        match eq_split(s) {
            Some(i) => 0 <= i < s.len() && s[i] == '=' && forall|k: int| 0 <= k < i ==> s[k] != '=',
            None => forall|k: int| 0 <= k < s.len() ==> s[k] != '=',
        },
    decreases s.len(),
{
    if s.len() > 0 && s[0] != '=' {
        let t = s.drop_first();
        lemma_eq_split(t);
        match eq_split(t) {
            Some(i) => {
                assert forall|k: int| 0 <= k < i + 1 implies s[k] != '=' by {
                    if k > 0 {
                        assert(t[k - 1] != '=');
                    }
                }
            },
            None => {
                assert forall|k: int| 0 <= k < s.len() implies s[k] != '=' by {
                    if k > 0 {
                        assert(t[k - 1] != '=');
                    }
                }
            },
        }
    }
}

proof fn lemma_digits_val_nonneg(s: Seq<char>)
    requires
        all_digits(s),
    ensures
        digits_val(s) >= 0,
    decreases s.len(),
{
    if s.len() > 0 {
        lemma_digits_val_nonneg(s.drop_last());
    }
}

proof fn lemma_digits_val_prefix(s: Seq<char>, m: int)
    requires
        0 <= m <= s.len(),
        all_digits(s),
    ensures
        digits_val(s) >= digits_val(s.subrange(0, m)),
    decreases s.len() - m,
{
    if m < s.len() {
        lemma_digits_val_prefix(s, m + 1);
        let p = s.subrange(0, m + 1);
        assert(p.drop_last() =~= s.subrange(0, m));
        assert(all_digits(s.subrange(0, m)));
        lemma_digits_val_nonneg(s.subrange(0, m));
    } else {
        assert(s.subrange(0, m) =~= s);
    }
}

fn find_eq(s: &str, n: usize) -> (r: Option<usize>)
    requires
        n == s@.len(),
    ensures
        match r {
            Some(j) => eq_split(s@) == Some(j as int),
            None => eq_split(s@) == None::<int>,
        },
{
    let mut j: usize = 0;
    while j < n
        invariant
            j <= n,
            n == s@.len(),
            forall|k: int| 0 <= k < j ==> s@[k] != '=',
        decreases n - j,
    {
        if s.get_char(j) == '=' {
            proof {
                lemma_eq_split(s@);
                match eq_split(s@) {
                    Some(i) => {
                        if i < j {
                            assert(s@[i] != '=');
                        } else if i > j {
                            assert(s@[j as int] != '=');
                        }
                    },
                    None => {
                        assert(s@[j as int] != '=');
                    },
                }
            }
            return Some(j);
        }
        j = j + 1;
    }
    proof {
        lemma_eq_split(s@);
        match eq_split(s@) {
            Some(i) => {
                assert(s@[i] != '=');
            },
            None => {},
        }
    }
    None
}

fn syntax_error(s: &str) -> (e: RunError)
    ensures
        e matches RunError::BindingSyntax { token } && token@ == s@,
{
    RunError::BindingSyntax { token: s.to_owned() }
}

/// Parses one `symbol=value` assignment token.
///
/// Accepts the token exactly when it holds an `=` with a non-empty left
/// part and a decimal integer right part whose value fits `i64`; the symbol
/// is the first character of the left part.
pub fn parse_binding(s: &str) -> (r: Result<(char, i64), RunError>)
    ensures
        match r {
            Ok((c, v)) => valid_binding(s@) && binding_of(s@) == Some((c, v as int)),
            Err(e) => !valid_binding(s@) && (e matches RunError::BindingSyntax { token }
                && token@ == s@),
        },
{
    let n = s.unicode_len();
    let j = match find_eq(s, n) {
        Some(j) => j,
        None => {
            // no `=` anywhere
            return Err(syntax_error(s));
        },
    };
    proof {
        lemma_eq_split(s@);
    }
    if j == 0 {
        // empty symbol part
        return Err(syntax_error(s));
    }
    let c = s.get_char(0);
    if j + 1 >= n {
        // empty value part
        return Err(syntax_error(s));
    }
    let first = s.get_char(j + 1);
    let neg = first == '-';
    let st: usize = if first == '-' || first == '+' {
        j + 2
    } else {
        j + 1
    };
    if st >= n {
        // a bare sign with no digits
        return Err(syntax_error(s));
    }
    let ghost right = s@.skip(j + 1);
    let ghost digits = s@.subrange(st as int, n as int);
    proof {
        assert(right.len() == n - j - 1);
        assert(right[0] == s@[j + 1]);
        if st == j + 2 {
            assert(right.skip(1) =~= digits);
        } else {
            assert(right =~= digits);
        }
    }
    let mut mag: u64 = 0;
    let mut k: usize = st;
    while k < n
        invariant
            st <= k <= n,
            n == s@.len(),
            st < n,
            digits == s@.subrange(st as int, n as int),
            all_digits(s@.subrange(st as int, k as int)),
            mag == digits_val(s@.subrange(st as int, k as int)),
            eq_split(s@) == Some(j as int),
            1 <= j,
            j + 1 < n,
            right.len() == n - j - 1,
            right[0] == s@[j + 1],
            st == j + 1 || st == j + 2,
            st == j + 2 ==> (s@[j + 1] == '-' || s@[j + 1] == '+'),
            st == j + 1 ==> !(s@[j + 1] == '-' || s@[j + 1] == '+'),
            neg == (s@[j + 1] == '-'),
            right == s@.skip(j + 1),
            (if st == j + 2 { right.skip(1) } else { right }) =~= digits,
        decreases n - k,
    {
        let ch = s.get_char(k);
        let u = ch as u32;
        let ghost pre = s@.subrange(st as int, k as int);
        proof {
            assert(s@.subrange(st as int, k + 1).drop_last() =~= pre);
            assert(s@.subrange(st as int, k + 1).last() == s@[k as int]);
        }
        if u < 48 || u > 57 {
            // a non-digit in the value part: the token denotes nothing
            proof {
                assert(!is_digit(s@[k as int]));
                assert(digits[k - st] == s@[k as int]);
                assert(!all_digits(digits));
                if st == j + 2 {
                    assert(int_of_chars(right) == None::<int>);
                } else {
                    assert(right[0] == digits[0]);
                    assert(!(right[0] == '-' || right[0] == '+'));
                    assert(int_of_chars(right) == None::<int>);
                }
            }
            return Err(syntax_error(s));
        }
        let d = (u - 48) as u64;
        if mag > (u64::MAX - d) / 10 {
            // the magnitude can no longer fit 64 bits, so the value cannot
            // fit `i64` either (later digits only grow it)
            proof {
                assert(mag * 10 + d > u64::MAX) by (nonlinear_arith)
                    requires
                        mag > (u64::MAX - d) / 10,
                        d <= 9,
                ;
                if all_digits(digits) {
                    lemma_digits_val_prefix(digits, k + 1 - st);
                    assert(digits.subrange(0, k + 1 - st) =~= s@.subrange(st as int, k + 1));
                    assert(digits_val(s@.subrange(st as int, k + 1)) == mag * 10 + digit_val(
                        s@[k as int],
                    ));
                    assert(digits_val(digits) > u64::MAX);
                    if st == j + 2 {
                        if s@[j + 1] == '-' {
                            assert(binding_of(s@) == Some((s@[0], -digits_val(digits))));
                        } else {
                            assert(binding_of(s@) == Some((s@[0], digits_val(digits))));
                        }
                    } else {
                        assert(int_of_chars(right) == Some(digits_val(digits)));
                    }
                    assert(!valid_binding(s@));
                } else {
                    let bad = choose|i: int| 0 <= i < digits.len() && !is_digit(digits[i]);
                    if st == j + 2 {
                        assert(!is_digit(right.skip(1)[bad]));
                        assert(int_of_chars(right) == None::<int>);
                    } else {
                        assert(!is_digit(right[bad]));
                        assert(!(right[0] == '-' || right[0] == '+'));
                        assert(int_of_chars(right) == None::<int>);
                    }
                    assert(!valid_binding(s@));
                }
            }
            return Err(syntax_error(s));
        }
        proof {
            assert(mag * 10 + d <= u64::MAX) by (nonlinear_arith)
                requires
                    mag <= (u64::MAX - d) / 10,
                    d <= 9,
            ;
        }
        mag = mag * 10 + d;
        k = k + 1;
    }
    proof {
        assert(s@.subrange(st as int, n as int) =~= digits);
        assert(all_digits(digits));
        assert(mag == digits_val(digits));
        if st == j + 2 {
            assert(right.len() > 1);
            assert(right[0] == s@[j + 1]);
            if neg {
                assert(int_of_chars(right) == Some(-digits_val(digits)));
            } else {
                assert(int_of_chars(right) == Some(digits_val(digits)));
            }
        } else {
            assert(right.len() > 0);
            assert(right[0] == s@[j + 1]);
            assert(right =~= digits);
            assert(int_of_chars(right) == Some(digits_val(digits)));
        }
    }
    if neg {
        if mag > 0x8000_0000_0000_0000u64 {
            return Err(syntax_error(s));
        }
        if mag == 0x8000_0000_0000_0000u64 {
            Ok((c, i64::MIN))
        } else {
            Ok((c, -(mag as i64)))
        }
    } else {
        if mag > 0x7FFF_FFFF_FFFF_FFFFu64 {
            return Err(syntax_error(s));
        }
        Ok((c, mag as i64))
    }
}

/// The table after applying a sequence of bindings in order.
pub open spec fn bind_all(m: Map<char, i64>, bs: Seq<(char, i64)>) -> Map<char, i64>
    decreases bs.len(),
{
    if bs.len() == 0 {
        m
    } else {
        bind_all(m, bs.drop_last()).insert(bs.last().0, bs.last().1)
    }
}

impl SymbolTable {
    /// Applies a whole list of assignment tokens, in order, before any
    /// evaluation begins. Either every token is accepted and every binding
    /// lands in the table, or the first malformed token is reported and the
    /// table is left exactly as it was.
    pub fn apply_assignments(&mut self, tokens: &Vec<String>) -> (r: Result<(), RunError>)
        ensures
            match r {
                Ok(()) => {
                    &&& forall|i: int|
                        0 <= i < tokens@.len() ==> valid_binding(#[trigger] tokens@[i]@)
                    &&& final(self)@ == bind_all(
                        old(self)@,
                        Seq::new(tokens@.len(), |i: int| parsed_binding(tokens@[i]@)),
                    )
                },
                Err(e) => {
                    &&& final(self)@ == old(self)@
                    &&& exists|i: int|
                        0 <= i < tokens@.len() && !valid_binding(#[trigger] tokens@[i]@) && (
                        e matches RunError::BindingSyntax { token } && token@ == tokens@[i]@)
                },
            },
    {
        let ghost want = Seq::new(tokens@.len(), |i: int| parsed_binding(tokens@[i]@));
        let mut parsed: Vec<(char, i64)> = Vec::new();
        let mut i: usize = 0;
        while i < tokens.len()
            invariant
                i <= tokens@.len(),
                want == Seq::new(tokens@.len(), |t: int| parsed_binding(tokens@[t]@)),
                parsed@.len() == i,
                forall|t: int| 0 <= t < i ==> valid_binding(#[trigger] tokens@[t]@),
                forall|t: int| 0 <= t < i ==> parsed@[t] == want[t],
            decreases tokens@.len() - i,
        {
            match parse_binding(tokens[i].as_str()) {
                Ok(b) => {
                    parsed.push(b);
                },
                Err(e) => {
                    return Err(e);
                },
            }
            i = i + 1;
        }
        let mut t: usize = 0;
        proof {
            assert(parsed@ =~= want);
        }
        while t < parsed.len()
            invariant
                t <= parsed@.len(),
                parsed@ == want,
                self@ == bind_all(old(self)@, want.take(t as int)),
            decreases parsed@.len() - t,
        {
            let (c, v) = parsed[t];
            self.bind(c, v);
            proof {
                assert(want.take(t + 1).drop_last() =~= want.take(t as int));
                assert(want.take(t + 1).last() == want[t as int]);
            }
            t = t + 1;
        }
        proof {
            assert(want.take(parsed@.len() as int) =~= want);
        }
        Ok(())
    }
}

} // verus!
