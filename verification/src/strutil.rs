//! Character-level string helpers: building strings one character at a
//! time, decimal formatting and parsing, case folding, ordering, and
//! substring search. Everything here is stated over `Seq<char>` views.

use vstd::prelude::*;

verus! {

/// Relies on `String::push`: appends one character at the end.
#[verifier::external_body]
pub fn push_char(s: &mut String, c: char)
    ensures
        final(s)@ == old(s)@.push(c),
{
    s.push(c);
}

/// Whether two strings hold the same characters.
pub fn string_eq(a: &String, b: &String) -> (r: bool)
    ensures
        r == (a@ == b@),
{
    a.eq(b)
}

/// The characters of `s`, as a vector.
pub fn str_to_chars(s: &str) -> (r: Vec<char>)
    ensures
        r@ == s@,
{
    let n = s.unicode_len();
    let mut r: Vec<char> = Vec::new();
    let mut i: usize = 0;
    while i < n
        invariant
            n == s@.len(),
            i <= n,
            r@ == s@.subrange(0, i as int),
        decreases n - i,
    {
        r.push(s.get_char(i));
        i = i + 1;
    }
    proof {
        assert(r@ =~= s@);
    }
    r
}

/// The string holding exactly the characters of `v`.
pub fn chars_to_string(v: &Vec<char>) -> (r: String)
    ensures
        r@ == v@,
{
    let mut r = String::new();
    let mut i: usize = 0;
    while i < v.len()
        invariant
            i <= v.len(),
            r@ == v@.subrange(0, i as int),
        decreases v.len() - i,
    {
        push_char(&mut r, v[i]);
        i = i + 1;
    }
    proof {
        assert(r@ =~= v@);
    }
    r
}

/// The decimal digit character for a value below ten.
pub open spec fn digit_char(d: int) -> char {
    if d == 0 {
        '0'
    } else if d == 1 {
        '1'
    } else if d == 2 {
        '2'
    } else if d == 3 {
        '3'
    } else if d == 4 {
        '4'
    } else if d == 5 {
        '5'
    } else if d == 6 {
        '6'
    } else if d == 7 {
        '7'
    } else if d == 8 {
        '8'
    } else {
        '9'
    }
}

/// The decimal rendering of a natural number, most significant digit first.
pub open spec fn dec_digits(n: nat) -> Seq<char>
    decreases n,
{
    if n < 10 {
        seq![digit_char(n as int)]
    } else {
        dec_digits(n / 10).push(digit_char((n % 10) as int))
    }
}

/// The decimal rendering of a signed value: a minus sign for negatives.
pub open spec fn dec_i64(n: int) -> Seq<char> {
    if n < 0 {
        seq!['-'].add(dec_digits((-n) as nat))
    } else {
        dec_digits(n as nat)
    }
}

fn digit_to_char(d: u64) -> (c: char)
    requires
        d < 10,
    ensures
        c == digit_char(d as int),
{
    if d == 0 {
        '0'
    } else if d == 1 {
        '1'
    } else if d == 2 {
        '2'
    } else if d == 3 {
        '3'
    } else if d == 4 {
        '4'
    } else if d == 5 {
        '5'
    } else if d == 6 {
        '6'
    } else if d == 7 {
        '7'
    } else if d == 8 {
        '8'
    } else {
        '9'
    }
}

/// Writes the decimal form of `n` as characters.
pub fn u64_to_chars(n: u64) -> (r: Vec<char>)
    ensures
        r@ == dec_digits(n as nat),
{
    let mut digits: Vec<char> = Vec::new();
    let mut m: u64 = n;
    // least significant digit first
    while m >= 10
        invariant
            dec_digits(n as nat) == dec_digits(m as nat).add(digits@.reverse()),
        decreases m,
    {
        digits.push(digit_to_char(m % 10));
        proof {
            assert(digits@.reverse() =~= seq![digit_char((m % 10) as int)].add(
                digits@.subrange(0, digits@.len() - 1).reverse(),
            ));
            assert(dec_digits((m / 10) as nat).push(digit_char((m % 10) as int)).add(
                digits@.subrange(0, digits@.len() - 1).reverse(),
            ) =~= dec_digits((m / 10) as nat).add(digits@.reverse()));
        }
        m = m / 10;
    }
    digits.push(digit_to_char(m));
    proof {
        assert(digits@.reverse() =~= seq![digit_char(m as int)].add(
            digits@.subrange(0, digits@.len() - 1).reverse(),
        ));
        assert(dec_digits(m as nat).add(digits@.subrange(0, digits@.len() - 1).reverse())
            =~= digits@.reverse());
    }
    let mut r: Vec<char> = Vec::new();
    let mut i: usize = digits.len();
    while i > 0
        invariant
            i <= digits.len(),
            r@ == digits@.subrange(i as int, digits@.len() as int).reverse(),
        decreases i,
    {
        i = i - 1;
        r.push(digits[i]);
        proof {
            assert(digits@.subrange(i as int, digits@.len() as int).reverse() =~= digits@.subrange(
                i + 1,
                digits@.len() as int,
            ).reverse().push(digits@[i as int]));
        }
    }
    proof {
        assert(digits@.subrange(0, digits@.len() as int) =~= digits@);
        assert(r@ == digits@.reverse());
    }
    r
}

/// The decimal form of an unsigned value.
pub fn u64_to_string(n: u64) -> (r: String)
    ensures
        r@ == dec_digits(n as nat),
{
    let chars = u64_to_chars(n);
    chars_to_string(&chars)
}

/// The decimal form of a signed value.
pub fn i64_to_string(n: i64) -> (r: String)
    ensures
        r@ == dec_i64(n as int),
{
    if n >= 0 {
        u64_to_string(n as u64)
    } else {
        let m: u64 = (-(n as i128)) as u64;
        let chars = u64_to_chars(m);
        let mut r = String::new();
        push_char(&mut r, '-');
        let mut i: usize = 0;
        while i < chars.len()
            invariant
                i <= chars.len(),
                r@ == seq!['-'].add(chars@.subrange(0, i as int)),
            decreases chars.len() - i,
        {
            proof {
                assert(seq!['-'].add(chars@.subrange(0, i as int)).push(chars@[i as int])
                    =~= seq!['-'].add(chars@.subrange(0, i + 1)));
            }
            push_char(&mut r, chars[i]);
            i = i + 1;
        }
        proof {
            assert(chars@.subrange(0, chars@.len() as int) =~= chars@);
        }
        r
    }
}

/// Whether `c` is a decimal digit.
pub open spec fn is_digit(c: char) -> bool {
    48 <= c as int && c as int <= 57
}

/// The numeric value of a digit character.
pub open spec fn digit_val(c: char) -> int {
    c as int - 48
}

/// The numeric value of a digit string, most significant digit first.
pub open spec fn digits_val(s: Seq<char>) -> int
    decreases s.len(),
{
    if s.len() == 0 {
        0
    } else {
        digits_val(s.drop_last()) * 10 + digit_val(s.last())
    }
}

/// Whether every character of `s` is a decimal digit.
pub open spec fn all_digits(s: Seq<char>) -> bool {
    forall|i: int| 0 <= i < s.len() ==> is_digit(#[trigger] s[i])
}

/// The strings accepted as signed decimal numbers: an optional sign
/// followed by at least one digit.
pub open spec fn is_signed_decimal(s: Seq<char>) -> bool {
    if s.len() > 0 && (s[0] == '-' || s[0] == '+') {
        s.len() > 1 && all_digits(s.skip(1))
    } else {
        s.len() > 0 && all_digits(s)
    }
}

/// The value denoted by a signed decimal string.
pub open spec fn signed_decimal_val(s: Seq<char>) -> int {
    if s.len() > 0 && s[0] == '-' {
        -digits_val(s.skip(1))
    } else if s.len() > 0 && s[0] == '+' {
        digits_val(s.skip(1))
    } else {
        digits_val(s)
    }
}

proof fn lemma_digits_val_bounds(s: Seq<char>)
    requires
        all_digits(s),
    ensures
        0 <= digits_val(s),
        s.len() > 0 ==> digits_val(s) >= digit_val(s.last()),
    decreases s.len(),
{
    if s.len() > 0 {
        lemma_digits_val_bounds(s.drop_last());
    }
}

/// Reads the digits of `v` starting at position `from` as a number,
/// or reports that the value does not fit below `bound`.
fn parse_digits(v: &Vec<char>, from: usize, bound: u64) -> (r: Option<u64>)
    requires
        0 < bound,
        from < v@.len(),
        all_digits(v@.skip(from as int)),
    ensures
        match r {
            Some(n) => n == digits_val(v@.skip(from as int)) && n < bound,
            None => digits_val(v@.skip(from as int)) >= bound,
        },
{
    let ghost whole = v@.skip(from as int);
    let mut acc: u64 = 0;
    let mut i: usize = from;
    while i < v.len()
        invariant
            0 < bound <= u64::MAX,
            from <= i <= v@.len(),
            all_digits(v@.skip(from as int)),
            whole == v@.skip(from as int),
            acc == digits_val(v@.subrange(from as int, i as int)),
            acc < bound,
        decreases v@.len() - i,
    {
        let c = v[i];
        proof {
            assert(whole[i - from] == v@[i as int]);
            assert(is_digit(c));
        }
        let d: u64 = (c as u32 as u64) - 48;
        proof {
            assert(d == digit_val(c));
            assert(v@.subrange(from as int, i + 1).drop_last() =~= v@.subrange(
                from as int,
                i as int,
            ));
            assert(v@.subrange(from as int, i + 1).last() == c);
        }
        if acc > (bound - 1) / 10 || (acc == (bound - 1) / 10 && d > (bound - 1) % 10) {
            // the digits so far already exceed the bound
            proof {
                let rest = v@.skip(from as int).skip(i - from + 1);
                lemma_digits_val_grows(v@.skip(from as int), i - from + 1);
                assert(v@.subrange(from as int, i + 1) =~= v@.skip(from as int).take(
                    i - from + 1,
                ));
                assert(digits_val(v@.skip(from as int)) >= digits_val(
                    v@.subrange(from as int, i + 1),
                ));
                assert(acc * 10 + d >= bound) by (nonlinear_arith)
                    requires
                        acc > (bound - 1) / 10 || (acc == (bound - 1) / 10 && d > (bound - 1)
                            % 10),
                        0 < bound,
                        0 <= d < 10,
                        0 <= acc,
                ;
            }
            return None;
        }
        proof {
            assert(acc * 10 + d < bound) by (nonlinear_arith)
                requires
                    acc <= (bound - 1) / 10,
                    acc == (bound - 1) / 10 ==> d <= (bound - 1) % 10,
                    0 < bound,
                    0 <= d < 10,
                    0 <= acc,
            ;
        }
        acc = acc * 10 + d;
        i = i + 1;
    }
    proof {
        assert(v@.subrange(from as int, v@.len() as int) =~= v@.skip(from as int));
    }
    Some(acc)
}

/// Once some prefix of a digit string reaches a value, the whole string's
/// value is at least as large.
proof fn lemma_digits_val_grows(s: Seq<char>, k: int)
    requires
        all_digits(s),
        0 <= k <= s.len(),
    ensures
        digits_val(s) >= digits_val(s.take(k)),
    decreases s.len() - k,
{
    lemma_digits_val_bounds(s.take(k));
    if k < s.len() {
        lemma_digits_val_grows(s, k + 1);
        assert(s.take(k + 1).drop_last() =~= s.take(k));
        assert(digits_val(s.take(k + 1)) == digits_val(s.take(k)) * 10 + digit_val(s[k]));
        assert(digits_val(s.take(k)) * 10 >= digits_val(s.take(k))) by (nonlinear_arith)
            requires
                digits_val(s.take(k)) >= 0,
        ;
    } else {
        assert(s.take(k) =~= s);
    }
}

/// Reads a signed decimal number, exactly as the configuration commands
/// expect one: an optional sign, then digits, nothing else, within the
/// range of an `i64`.
pub fn parse_i64(s: &str) -> (r: Option<i64>)
    ensures
        match r {
            Some(n) => is_signed_decimal(s@) && n == signed_decimal_val(s@) && i64::MIN
                <= signed_decimal_val(s@) <= i64::MAX,
            None => !is_signed_decimal(s@) || signed_decimal_val(s@) > i64::MAX
                || signed_decimal_val(s@) < i64::MIN,
        },
{
    let v = str_to_chars(s);
    if v.len() == 0 {
        return None;
    }
    let first = v[0];
    let negative = first == '-';
    let skip_sign = negative || first == '+';
    let from: usize = if skip_sign {
        1
    } else {
        0
    };
    if from >= v.len() {
        return None;
    }
    // every remaining character must be a digit
    let mut i: usize = from;
    while i < v.len()
        invariant
            v@ == s@,
            v@.len() > from,
            from == 1 <==> (v@[0] == '-' || v@[0] == '+'),
            from == 0 || from == 1,
            from <= i <= v@.len(),
            forall|j: int| from <= j < i ==> is_digit(#[trigger] v@[j]),
        decreases v@.len() - i,
    {
        let c = v[i];
        if c < '0' || c > '9' {
            proof {
                assert(!is_digit(v@[i as int]));
                assert(v@.skip(from as int)[i - from] == v@[i as int]);
                assert(!is_signed_decimal(s@));
            }
            return None;
        }
        i = i + 1;
    }
    proof {
        assert forall|j: int| 0 <= j < v@.skip(from as int).len() implies is_digit(
            #[trigger] v@.skip(from as int)[j],
        ) by {
            assert(v@.skip(from as int)[j] == v@[j + from]);
        }
    }
    proof {
        assert(v@.skip(0) =~= v@);
    }
    if negative {
        match parse_digits(&v, from, 9223372036854775809u64) {
            Some(n) => {
                proof {
                    assert(signed_decimal_val(s@) == -(n as int));
                }
                let r: i64 = (-(n as i128)) as i64;
                Some(r)
            },
            None => None,
        }
    } else {
        match parse_digits(&v, from, 9223372036854775808u64) {
            Some(n) => Some(n as i64),
            None => None,
        }
    }
}

/// ASCII case folding of one character: uppercase letters become
/// lowercase, everything else is unchanged.
pub open spec fn fold_char(c: char) -> char {
    if 65 <= c as int && c as int <= 90 {
        ((c as u8) + 32) as char
    } else {
        c
    }
}

/// Folds one character to ASCII lowercase.
pub fn fold_char_exec(c: char) -> (r: char)
    ensures
        r == fold_char(c),
{
    if c >= 'A' && c <= 'Z' {
        proof {
            vstd::utf8::char_is_scalar(c);
        }
        (((c as u32) as u8) + 32) as char
    } else {
        c
    }
}

/// The character a comparison looks at: folded to lowercase when the
/// comparison ignores ASCII case, the character itself otherwise.
pub open spec fn key_char(c: char, fold: bool) -> char {
    if fold {
        fold_char(c)
    } else {
        c
    }
}

/// Lexicographic ordering of strings by code point, with ASCII letters
/// folded to lowercase first when `fold` is set. `lex_le_by(a, b, fold)`
/// holds when `a` sorts at or before `b`.
pub open spec fn lex_le_by(a: Seq<char>, b: Seq<char>, fold: bool) -> bool
    decreases a.len(),
{
    if a.len() == 0 {
        true
    } else if b.len() == 0 {
        false
    } else if (key_char(a[0], fold) as int) < (key_char(b[0], fold) as int) {
        true
    } else if (key_char(a[0], fold) as int) > (key_char(b[0], fold) as int) {
        false
    } else {
        lex_le_by(a.skip(1), b.skip(1), fold)
    }
}

/// Plain code-point ordering, as the standard library sorts strings.
pub open spec fn cp_le(a: Seq<char>, b: Seq<char>) -> bool {
    lex_le_by(a, b, false)
}

/// Decides the ordering of two character vectors.
pub fn lex_le_by_exec(a: &Vec<char>, b: &Vec<char>, fold: bool) -> (r: bool)
    ensures
        r == lex_le_by(a@, b@, fold),
{
    let mut i: usize = 0;
    proof {
        assert(a@.skip(0) =~= a@);
        assert(b@.skip(0) =~= b@);
    }
    loop
        invariant
            i <= a@.len(),
            i <= b@.len(),
            lex_le_by(a@, b@, fold) == lex_le_by(a@.skip(i as int), b@.skip(i as int), fold),
        decreases a@.len() - i,
    {
        if i >= a.len() {
            proof {
                assert(a@.skip(i as int).len() == 0);
            }
            return true;
        }
        if i >= b.len() {
            proof {
                assert(b@.skip(i as int).len() == 0);
                assert(a@.skip(i as int).len() > 0);
            }
            return false;
        }
        let ca = if fold {
            fold_char_exec(a[i])
        } else {
            a[i]
        };
        let cb = if fold {
            fold_char_exec(b[i])
        } else {
            b[i]
        };
        proof {
            assert(a@.skip(i as int)[0] == a@[i as int]);
            assert(b@.skip(i as int)[0] == b@[i as int]);
            assert(a@.skip(i as int).skip(1) =~= a@.skip(i + 1));
            assert(b@.skip(i as int).skip(1) =~= b@.skip(i + 1));
        }
        if ca < cb {
            return true;
        }
        if ca > cb {
            return false;
        }
        i = i + 1;
    }
}

/// Decides the ordering of two strings by code point.
pub fn str_cp_le(a: &String, b: &String) -> (r: bool)
    ensures
        r == cp_le(a@, b@),
{
    let va = str_to_chars(a.as_str());
    let vb = str_to_chars(b.as_str());
    lex_le_by_exec(&va, &vb, false)
}

/// Total: one of the two orderings always holds.
pub proof fn lemma_lex_le_total(a: Seq<char>, b: Seq<char>, fold: bool)
    ensures
        lex_le_by(a, b, fold) || lex_le_by(b, a, fold),
    decreases a.len(),
{
    if a.len() > 0 && b.len() > 0 && key_char(a[0], fold) == key_char(b[0], fold) {
        lemma_lex_le_total(a.skip(1), b.skip(1), fold);
    }
}

/// Transitive: chained orderings compose.
pub proof fn lemma_lex_le_trans(a: Seq<char>, b: Seq<char>, c: Seq<char>, fold: bool)
    requires
        lex_le_by(a, b, fold),
        lex_le_by(b, c, fold),
    ensures
        lex_le_by(a, c, fold),
    decreases a.len(),
{
    if a.len() > 0 && b.len() > 0 && c.len() > 0 {
        if key_char(a[0], fold) == key_char(b[0], fold) && key_char(b[0], fold) == key_char(
            c[0],
            fold,
        ) {
            lemma_lex_le_trans(a.skip(1), b.skip(1), c.skip(1), fold);
        }
    }
}

/// Whether `needle` occurs in `hay` starting at position `at`.
pub open spec fn matches_at(hay: Seq<char>, needle: Seq<char>, at: int) -> bool {
    &&& 0 <= at
    &&& at + needle.len() <= hay.len()
    &&& forall|j: int|
        0 <= j < needle.len() ==> fold_char(hay[at + j]) == fold_char(#[trigger] needle[j])
}

/// Whether `needle` occurs anywhere in `hay`, ignoring ASCII case.
pub open spec fn contains_fold(hay: Seq<char>, needle: Seq<char>) -> bool {
    exists|at: int| matches_at(hay, needle, at)
}

/// Decides whether `needle` occurs in `hay`, ignoring ASCII case.
pub fn contains_fold_exec(hay: &Vec<char>, needle: &Vec<char>) -> (r: bool)
    ensures
        r == contains_fold(hay@, needle@),
{
    if needle.len() > hay.len() {
        proof {
            assert forall|at: int| !matches_at(hay@, needle@, at) by {}
        }
        return false;
    }
    if needle.len() == 0 {
        proof {
            assert(matches_at(hay@, needle@, 0));
        }
        return true;
    }
    let hlen = hay.len();
    let last_start: usize = hay.len() - needle.len();
    let mut at: usize = 0;
    loop
        invariant
            1 <= needle@.len() <= hay@.len(),
            hay@.len() == hlen,
            last_start == hay@.len() - needle@.len(),
            at <= last_start + 1,
            forall|k: int| 0 <= k < at ==> !matches_at(hay@, needle@, k),
        decreases last_start + 1 - at,
    {
        if at > last_start {
            proof {
                assert forall|k: int| !matches_at(hay@, needle@, k) by {
                    if 0 <= k < at {
                    }
                }
            }
            return false;
        }
        let mut j: usize = 0;
        let mut hit = true;
        while j < needle.len()
            invariant
                hay@.len() == hlen,
                at + needle@.len() <= hay@.len(),
                j <= needle@.len(),
                hit ==> forall|t: int|
                    0 <= t < j ==> fold_char(hay@[at + t]) == fold_char(#[trigger] needle@[t]),
                !hit ==> !matches_at(hay@, needle@, at as int),
            decreases needle@.len() - j,
        {
            if fold_char_exec(hay[at + j]) != fold_char_exec(needle[j]) {
                hit = false;
                proof {
                    assert(!matches_at(hay@, needle@, at as int));
                }
                j = needle.len();
            } else {
                j = j + 1;
            }
        }
        if hit {
            proof {
                assert(matches_at(hay@, needle@, at as int));
            }
            return true;
        }
        at = at + 1;
    }
}

/// The Unicode white-space characters, as the standard library's
/// `char::is_whitespace` classifies them.
pub open spec fn is_space(c: char) -> bool {
    c == ' ' || c == '\t' || c == '\n' || c == '\r' || c as int == 0xB || c as int == 0xC
        || c as int == 0x85 || c as int == 0xA0 || c as int == 0x1680 || (0x2000 <= c as int
        && c as int <= 0x200A) || c as int == 0x2028 || c as int == 0x2029 || c as int == 0x202F
        || c as int == 0x205F || c as int == 0x3000
}

/// Whether the string holds nothing but white space.
pub open spec fn is_blank(s: Seq<char>) -> bool {
    forall|i: int| 0 <= i < s.len() ==> is_space(#[trigger] s[i])
}

fn is_space_exec(c: char) -> (r: bool)
    ensures
        r == is_space(c),
{
    c == ' ' || c == '\t' || c == '\n' || c == '\r' || c == '\u{B}' || c == '\u{C}'
        || c == '\u{85}' || c == '\u{A0}' || c == '\u{1680}' || (c >= '\u{2000}' && c
        <= '\u{200A}') || c == '\u{2028}' || c == '\u{2029}' || c == '\u{202F}' || c == '\u{205F}'
        || c == '\u{3000}'
}

/// Decides whether a string is empty or all white space, as trimming it
/// to emptiness would.
pub fn is_blank_exec(s: &str) -> (r: bool)
    ensures
        r == is_blank(s@),
{
    let v = str_to_chars(s);
    let mut i: usize = 0;
    while i < v.len()
        invariant
            v@ == s@,
            i <= v@.len(),
            forall|j: int| 0 <= j < i ==> is_space(#[trigger] v@[j]),
        decreases v@.len() - i,
    {
        if !is_space_exec(v[i]) {
            return false;
        }
        i = i + 1;
    }
    true
}

} // verus!
