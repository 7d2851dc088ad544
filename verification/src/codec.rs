//! Primitives of the wire format: decimal numbers, booleans, escaped strings,
//! string arrays and board cells, each with its encoder, its tolerant parser,
//! and a proof that the parser inverts the encoder.
//!
//! Frames are JSON-shaped text. The only escapes used inside strings are
//! `\"` and `\\`; every other character stands for itself.

use vstd::prelude::*;

verus! {

broadcast use vstd::string::axiom_spec_iter, vstd::string::next_postcondition;

/// The digit character for `d` (0 to 9).
pub open spec fn digit_char(d: int) -> char {
    if d == 0 { '0' }
    else if d == 1 { '1' }
    else if d == 2 { '2' }
    else if d == 3 { '3' }
    else if d == 4 { '4' }
    else if d == 5 { '5' }
    else if d == 6 { '6' }
    else if d == 7 { '7' }
    else if d == 8 { '8' }
    else if d == 9 { '9' }
    else { '?' }
}

/// The value of a digit character, or 10 for any other character.
pub open spec fn digit_val(c: char) -> int {
    if c == '0' { 0 }
    else if c == '1' { 1 }
    else if c == '2' { 2 }
    else if c == '3' { 3 }
    else if c == '4' { 4 }
    else if c == '5' { 5 }
    else if c == '6' { 6 }
    else if c == '7' { 7 }
    else if c == '8' { 8 }
    else if c == '9' { 9 }
    else { 10 }
}

/// Whether `c` is a decimal digit.
pub open spec fn is_digit(c: char) -> bool {
    digit_val(c) != 10
}

/// The decimal encoding of `n`, most significant digit first.
pub open spec fn enc_u64(n: u64) -> Seq<char>
    decreases n,
{
    if n < 10 {
        seq![digit_char(n as int)]
    } else {
        enc_u64(n / 10) + seq![digit_char((n % 10) as int)]
    }
}

/// Greedily reads digits from position `i`, accumulating onto `acc`; fails on
/// a value that exceeds `u64::MAX`.
pub open spec fn p_u64_rec(s: Seq<char>, i: int, acc: u64) -> Option<(u64, int)>
    decreases s.len() - i when 0 <= i <= s.len()
{
    if i == s.len() || !is_digit(s[i]) {
        Some((acc, i))
    } else {
        let d = digit_val(s[i]);
        if acc as int > ((u64::MAX as int) - d) / 10 {
            None
        } else {
            p_u64_rec(s, i + 1, (acc as int * 10 + d) as u64)
        }
    }
}

/// Parses a decimal number at position `i`: at least one digit, greedy.
pub open spec fn p_u64(s: Seq<char>, i: int) -> Option<(u64, int)> {
    if 0 <= i < s.len() && is_digit(s[i]) {
        p_u64_rec(s, i, 0)
    } else {
        None
    }
}

/// The encoding of a boolean.
pub open spec fn enc_bool(b: bool) -> Seq<char> {
    if b {
        "true"@
    } else {
        "false"@
    }
}

/// `s` holds `lit` starting at position `i`.
pub open spec fn starts_with_at(s: Seq<char>, i: int, lit: Seq<char>) -> bool {
    &&& 0 <= i
    &&& i + lit.len() <= s.len()
    &&& s.subrange(i, i + lit.len()) == lit
}

/// Parses a boolean at position `i`.
pub open spec fn p_bool(s: Seq<char>, i: int) -> Option<(bool, int)> {
    if starts_with_at(s, i, "true"@) {
        Some((true, i + 4))
    } else if starts_with_at(s, i, "false"@) {
        Some((false, i + 5))
    } else {
        None
    }
}

/// The escape of one character: only `"` and `\` are escaped.
pub open spec fn esc_char(c: char) -> Seq<char> {
    if c == '"' {
        seq!['\\', '"']
    } else if c == '\\' {
        seq!['\\', '\\']
    } else {
        seq![c]
    }
}

/// The escape of a whole string body.
pub open spec fn esc(s: Seq<char>) -> Seq<char>
    decreases s.len(),
{
    if s.len() == 0 {
        Seq::empty()
    } else {
        esc_char(s[0]) + esc(s.drop_first())
    }
}

/// A quoted, escaped string.
pub open spec fn enc_str(s: Seq<char>) -> Seq<char> {
    seq!['"'] + esc(s) + seq!['"']
}

/// Reads an escaped string body up to its closing quote, accumulating onto
/// `acc`.
pub open spec fn p_str_rec(s: Seq<char>, i: int, acc: Seq<char>) -> Option<(Seq<char>, int)>
    decreases s.len() - i when 0 <= i <= s.len()
{
    if i == s.len() {
        None
    } else if s[i] == '"' {
        Some((acc, i + 1))
    } else if s[i] == '\\' {
        if i + 1 < s.len() && (s[i + 1] == '"' || s[i + 1] == '\\') {
            p_str_rec(s, i + 2, acc.push(s[i + 1]))
        } else {
            None
        }
    } else {
        p_str_rec(s, i + 1, acc.push(s[i]))
    }
}

/// Parses a quoted string at position `i`.
pub open spec fn p_str(s: Seq<char>, i: int) -> Option<(Seq<char>, int)> {
    if 0 <= i < s.len() && s[i] == '"' {
        p_str_rec(s, i + 1, Seq::empty())
    } else {
        None
    }
}

/// The comma-separated bodies of a string array.
pub open spec fn enc_strs_inner(l: Seq<Seq<char>>) -> Seq<char>
    decreases l.len(),
{
    if l.len() == 0 {
        Seq::empty()
    } else if l.len() == 1 {
        enc_str(l[0])
    } else {
        enc_str(l[0]) + seq![','] + enc_strs_inner(l.drop_first())
    }
}

/// A bracketed string array.
pub open spec fn enc_strs(l: Seq<Seq<char>>) -> Seq<char> {
    seq!['['] + enc_strs_inner(l) + seq![']']
}

/// Reads `","`-separated strings until `"]"`, accumulating onto `acc`. `fuel`
/// only bounds the recursion; parsing always consumes characters faster than
/// it spends fuel.
pub open spec fn p_strs_rec(s: Seq<char>, i: int, acc: Seq<Seq<char>>, fuel: int) -> Option<
    (Seq<Seq<char>>, int),
>
    decreases fuel when fuel >= 0
{
    if fuel == 0 {
        None
    } else {
        match p_str(s, i) {
            Some((v, j)) => {
                if j < s.len() && s[j] == ',' {
                    p_strs_rec(s, j + 1, acc.push(v), fuel - 1)
                } else if j < s.len() && s[j] == ']' {
                    Some((acc.push(v), j + 1))
                } else {
                    None
                }
            },
            None => None,
        }
    }
}

/// Parses a bracketed string array at position `i`.
pub open spec fn p_strs(s: Seq<char>, i: int) -> Option<(Seq<Seq<char>>, int)> {
    if 0 <= i && i + 1 < s.len() && s[i] == '[' {
        if s[i + 1] == ']' {
            Some((Seq::empty(), i + 2))
        } else {
            p_strs_rec(s, i + 1, Seq::empty(), s.len() - i)
        }
    } else {
        None
    }
}

/// The character of one board cell: `.` for empty, the slot digit otherwise.
pub open spec fn cell_char(c: Option<usize>) -> char {
    match c {
        None => '.',
        Some(v) => digit_char(v as int),
    }
}

/// The cell characters of a whole board.
pub open spec fn enc_cells(b: Seq<Option<usize>>) -> Seq<char>
    decreases b.len(),
{
    if b.len() == 0 {
        Seq::empty()
    } else {
        seq![cell_char(b[0])] + enc_cells(b.drop_first())
    }
}

/// A board, encoded as one quoted string of cell characters.
pub open spec fn enc_board(b: Seq<Option<usize>>) -> Seq<char> {
    seq!['"'] + enc_cells(b) + seq!['"']
}

/// Reads cell characters up to the closing quote, accumulating onto `acc`.
pub open spec fn p_cells_rec(s: Seq<char>, i: int, acc: Seq<Option<usize>>) -> Option<
    (Seq<Option<usize>>, int),
>
    decreases s.len() - i when 0 <= i <= s.len()
{
    if i == s.len() {
        None
    } else if s[i] == '"' {
        Some((acc, i + 1))
    } else if s[i] == '.' {
        p_cells_rec(s, i + 1, acc.push(None))
    } else if is_digit(s[i]) {
        p_cells_rec(s, i + 1, acc.push(Some(digit_val(s[i]) as usize)))
    } else {
        None
    }
}

/// Parses a quoted board at position `i`.
pub open spec fn p_cells(s: Seq<char>, i: int) -> Option<(Seq<Option<usize>>, int)> {
    if 0 <= i < s.len() && s[i] == '"' {
        p_cells_rec(s, i + 1, Seq::empty())
    } else {
        None
    }
}

/// The characters of `s`, in order.
pub fn str_chars(s: &str) -> (r: Vec<char>)
    ensures
        r@ == s@,
{
    let mut r: Vec<char> = Vec::new();
    let mut it = s.chars();
    proof {
        assert(vstd::std_specs::iter::IteratorSpec::remaining(&it) == s@);
    }
    loop
        invariant
            r@ + vstd::std_specs::iter::IteratorSpec::remaining(&it) == s@,
            vstd::std_specs::iter::IteratorSpec::obeys_prophetic_iter_laws(&it),
        decreases s@.len() - r@.len(),
    {
        let ghost pre = vstd::std_specs::iter::IteratorSpec::remaining(&it);
        match it.next() {
            Some(c) => {
                r.push(c);
                proof {
                    assert(r@ + vstd::std_specs::iter::IteratorSpec::remaining(&it) =~= s@);
                }
            },
            None => {
                proof {
                    assert(r@ =~= s@);
                }
                return r;
            },
        }
    }
}

/// Relies on `String`'s `FromIterator` over `char`: collecting characters
/// yields the string of exactly those characters.
#[verifier::external_body]
pub(crate) fn chars_to_string(v: &Vec<char>) -> (r: String)
    ensures
        r@ == v@,
{
    v.iter().collect()
}

/// Appends a literal piece of the frame.
pub(crate) fn push_lit(out: &mut Vec<char>, lit: &str)
    ensures
        final(out)@ == old(out)@ + lit@,
{
    let mut v = str_chars(lit);
    out.append(&mut v);
}

/// The digit character for `d` (0 to 9), as a value.
fn digit_to_char(d: u64) -> (c: char)
    requires
        d < 10,
    ensures
        c == digit_char(d as int),
{
    match d {
        0 => '0',
        1 => '1',
        2 => '2',
        3 => '3',
        4 => '4',
        5 => '5',
        6 => '6',
        7 => '7',
        8 => '8',
        _ => '9',
    }
}

/// The value of a digit character; 10 for any other character.
fn digit_of(c: char) -> (d: u64)
    ensures
        d as int == digit_val(c),
{
    match c {
        '0' => 0,
        '1' => 1,
        '2' => 2,
        '3' => 3,
        '4' => 4,
        '5' => 5,
        '6' => 6,
        '7' => 7,
        '8' => 8,
        '9' => 9,
        _ => 10,
    }
}

/// Appends the decimal encoding of `n`.
pub(crate) fn push_u64(out: &mut Vec<char>, n: u64)
    ensures
        final(out)@ == old(out)@ + enc_u64(n),
    decreases n,
{
    if n < 10 {
        out.push(digit_to_char(n));
        proof {
            assert(final(out)@ =~= old(out)@ + enc_u64(n));
        }
    } else {
        push_u64(out, n / 10);
        out.push(digit_to_char(n % 10));
        proof {
            assert(final(out)@ =~= old(out)@ + enc_u64(n));
        }
    }
}

/// Appends the encoding of a boolean.
pub(crate) fn push_bool(out: &mut Vec<char>, b: bool)
    ensures
        final(out)@ == old(out)@ + enc_bool(b),
{
    if b {
        push_lit(out, "true");
    } else {
        push_lit(out, "false");
    }
}

/// Escaping distributes over appending one character.
pub proof fn lemma_esc_push(s: Seq<char>, c: char)
    ensures
        esc(s.push(c)) == esc(s) + esc_char(c),
    decreases s.len(),
{
    if s.len() == 0 {
        assert(s.push(c).drop_first() =~= Seq::<char>::empty());
        assert(s.push(c)[0] == c);
        assert(esc(s.push(c)) == esc_char(c) + esc(Seq::<char>::empty()));
        assert(esc(Seq::<char>::empty()) =~= Seq::<char>::empty());
        assert(esc(s) =~= Seq::<char>::empty());
        assert(esc_char(c) + Seq::<char>::empty() =~= Seq::<char>::empty() + esc_char(c));
    } else {
        assert(s.push(c).drop_first() =~= s.drop_first().push(c));
        assert(s.push(c)[0] == s[0]);
        assert(esc(s.push(c)) == esc_char(s[0]) + esc(s.drop_first().push(c)));
        lemma_esc_push(s.drop_first(), c);
        assert(esc(s) == esc_char(s[0]) + esc(s.drop_first()));
        assert(esc_char(s[0]) + (esc(s.drop_first()) + esc_char(c)) =~= (esc_char(s[0]) + esc(
            s.drop_first())) + esc_char(c));
    }
}

/// Appends a quoted, escaped string.
pub(crate) fn push_string(out: &mut Vec<char>, s: &str)
    ensures
        final(out)@ == old(out)@ + enc_str(s@),
{
    out.push('"');
    let cs = str_chars(s);
    let mut i: usize = 0;
    while i < cs.len()
        invariant
            i <= cs.len(),
            cs@ == s@,
            out@ == old(out)@ + seq!['"'] + esc(s@.subrange(0, i as int)),
        decreases cs.len() - i,
    {
        let c = cs[i];
        proof {
            assert(s@.subrange(0, i as int + 1) =~= s@.subrange(0, i as int).push(c));
            lemma_esc_push(s@.subrange(0, i as int), c);
        }
        if c == '"' {
            push_lit(out, "\\\"");
            proof {
                reveal_strlit("\\\"");
                assert("\\\""@ =~= esc_char(c));
            }
        } else if c == '\\' {
            push_lit(out, "\\\\");
            proof {
                reveal_strlit("\\\\");
                assert("\\\\"@ =~= esc_char(c));
            }
        } else {
            out.push(c);
            proof {
                assert(out@ =~= old(out)@ + seq!['"'] + esc(s@.subrange(0, i as int))
                    + esc_char(c));
            }
        }
        proof {
            assert(out@ =~= old(out)@ + seq!['"'] + esc(s@.subrange(0, i as int + 1)));
        }
        i = i + 1;
    }
    out.push('"');
    proof {
        assert(s@.subrange(0, s@.len() as int) =~= s@);
        assert(final(out)@ =~= old(out)@ + enc_str(s@));
    }
}

/// Appends a bracketed string array.
pub(crate) fn push_strings(out: &mut Vec<char>, l: &Vec<String>)
    ensures
        final(out)@ == old(out)@ + enc_strs(crate::game::strs_view(l@)),
{
    out.push('[');
    let mut i: usize = 0;
    while i < l.len()
        invariant
            i <= l.len(),
            out@ == old(out)@ + seq!['['] + enc_strs_inner(
                crate::game::strs_view(l@).take(i as int)) + if 0 < i < l.len() {
                seq![',']
            } else {
                Seq::<char>::empty()
            },
        decreases l.len() - i,
    {
        let ghost lv = crate::game::strs_view(l@);
        push_string(out, l[i].as_str());
        if i + 1 < l.len() {
            out.push(',');
        }
        proof {
            lemma_enc_strs_inner_take(lv, i as int);
            if i as int + 1 < lv.len() {
                assert(out@ =~= old(out)@ + seq!['['] + enc_strs_inner(lv.take(i as int + 1))
                    + seq![',']);
            } else {
                assert(out@ =~= old(out)@ + seq!['['] + enc_strs_inner(lv.take(i as int + 1)));
            }
        }
        i = i + 1;
    }
    out.push(']');
    proof {
        let lv = crate::game::strs_view(l@);
        assert(lv.take(lv.len() as int) =~= lv);
        assert(final(out)@ =~= old(out)@ + enc_strs(lv));
    }
}

/// Ten to the power `n` (1 for non-positive `n`).
pub open spec fn pow10(n: int) -> int
    decreases n,
{
    if n <= 0 {
        1
    } else {
        10 * pow10(n - 1)
    }
}

/// A decimal encoding is nonempty and all digits.
pub proof fn lemma_enc_u64_digits(v: u64)
    ensures
        enc_u64(v).len() >= 1,
        forall|k: int| 0 <= k < enc_u64(v).len() ==> is_digit(#[trigger] enc_u64(v)[k]),
    decreases v,
{
    if v < 10 {
        assert(is_digit(digit_char(v as int)));
        assert(enc_u64(v)[0] == digit_char(v as int));
    } else {
        lemma_enc_u64_digits(v / 10);
        assert(is_digit(digit_char((v % 10) as int)));
        assert forall|k: int| 0 <= k < enc_u64(v).len() implies is_digit(
            #[trigger] enc_u64(v)[k]) by {
            if k < enc_u64(v / 10).len() {
                assert(enc_u64(v)[k] == enc_u64(v / 10)[k]);
            } else {
                assert(enc_u64(v)[k] == digit_char((v % 10) as int));
            }
        }
    }
}

/// Division bound: if `a * 10 <= b` then `a <= b / 10`.
proof fn lemma_div10_le(a: int, b: int)
    requires
        0 <= a,
        a * 10 <= b,
    ensures
        a <= b / 10,
{
    assert(a <= b / 10) by (nonlinear_arith)
        requires
            0 <= a,
            a * 10 <= b,
    ;
}

/// The digit parser turns the decimal encoding of `v` back into `v`, shifted
/// onto whatever was already accumulated.
pub proof fn lemma_p_u64_rec_enc(s: Seq<char>, i: int, acc: u64, v: u64)
    requires
        starts_with_at(s, i, enc_u64(v)),
        acc as int * pow10(enc_u64(v).len() as int) + v <= u64::MAX as int,
    ensures
        p_u64_rec(s, i, acc) == p_u64_rec(
            s,
            i + enc_u64(v).len(),
            (acc as int * pow10(enc_u64(v).len() as int) + v) as u64,
        ),
    decreases v,
{
    let e = enc_u64(v);
    let n = e.len() as int;
    lemma_enc_u64_digits(v);
    assert(pow10(1) == 10) by {
        reveal_with_fuel(pow10, 3);
    }
    if v < 10 {
        assert(n == 1);
        assert(s.subrange(i, i + 1)[0] == s[i]);
        assert(s[i] == digit_char(v as int));
        assert(digit_val(s[i]) == v as int);
        assert(is_digit(s[i]));
        assert(acc as int * 10 + v <= u64::MAX as int);
        lemma_div10_le(acc as int, u64::MAX as int - v as int);
        assert(!(acc as int > ((u64::MAX as int) - v as int) / 10));
    } else {
        let hi = v / 10;
        let lo = (v % 10) as int;
        let eh = enc_u64(hi);
        let nh = eh.len() as int;
        assert(e == eh + seq![digit_char(lo)]);
        assert(n == nh + 1);
        assert(s.subrange(i, i + nh) =~= eh) by {
            assert(forall|k: int| 0 <= k < nh ==> s.subrange(i, i + n)[k] == #[trigger] s.subrange(
                i, i + nh)[k]);
        }
        assert(starts_with_at(s, i, eh));
        assert(pow10(n) == 10 * pow10(nh));
        let m = acc as int * pow10(nh) + hi;
        assert(m * 10 + lo == acc as int * pow10(n) + v) by (nonlinear_arith)
            requires
                pow10(n) == 10 * pow10(nh),
                v == 10 * (v / 10) + (v % 10),
                m == acc as int * pow10(nh) + v / 10,
                hi == v / 10,
                lo == v % 10,
        ;
        lemma_pow10_pos(nh);
        assert(0 <= m) by (nonlinear_arith)
            requires
                m == acc as int * pow10(nh) + hi,
                0 <= acc as int,
                0 <= hi,
                pow10(nh) >= 1,
        ;
        assert(m * 10 <= m * 10 + lo);
        assert(m <= u64::MAX as int) by (nonlinear_arith)
            requires
                0 <= m,
                m * 10 + lo <= u64::MAX as int,
                0 <= lo,
        ;
        lemma_p_u64_rec_enc(s, i, acc, hi);
        let acc2 = m as u64;
        assert(s.subrange(i, i + n)[nh] == s[i + nh]);
        assert(s[i + nh] == digit_char(lo));
        assert(digit_val(s[i + nh]) == lo);
        assert(is_digit(s[i + nh]));
        assert(i + nh < s.len());
        lemma_div10_le(m, u64::MAX as int - lo);
        assert(!(acc2 as int > ((u64::MAX as int) - lo) / 10));
        assert(p_u64_rec(s, i + nh, acc2) == p_u64_rec(s, i + n, (acc2 as int * 10 + lo) as u64));
        assert((acc2 as int * 10 + lo) as u64 == (acc as int * pow10(n) + v) as u64);
    }
}

/// Powers of ten are positive.
proof fn lemma_pow10_pos(n: int)
    ensures
        pow10(n) >= 1,
    decreases n,
{
    if n > 0 {
        lemma_pow10_pos(n - 1);
    }
}

/// Parsing inverts the decimal encoding when no digit follows it.
pub proof fn lemma_p_u64_enc(s: Seq<char>, i: int, v: u64)
    requires
        starts_with_at(s, i, enc_u64(v)),
        i + enc_u64(v).len() == s.len() || !is_digit(s[i + enc_u64(v).len()]),
    ensures
        p_u64(s, i) == Some((v, i + enc_u64(v).len())),
{
    let n = enc_u64(v).len() as int;
    lemma_enc_u64_digits(v);
    assert(s.subrange(i, i + n)[0] == s[i]);
    assert(is_digit(s[i]));
    assert(pow10(n) >= 1) by {
        lemma_pow10_pos(n);
    }
    assert(0int * pow10(n) + v <= u64::MAX as int);
    lemma_p_u64_rec_enc(s, i, 0, v);
    assert((0int * pow10(n) + v) as u64 == v);
    assert(p_u64_rec(s, i + n, v) == Some((v, i + n)));
}

/// Parsing inverts the boolean encoding.
pub proof fn lemma_p_bool_enc(s: Seq<char>, i: int, b: bool)
    requires
        starts_with_at(s, i, enc_bool(b)),
    ensures
        p_bool(s, i) == Some((b, i + enc_bool(b).len())),
{
    reveal_strlit("true");
    reveal_strlit("false");
    if b {
        assert(p_bool(s, i) == Some((true, i + 4)));
    } else {
        assert(s.subrange(i, i + 5)[0] == s[i]);
        assert(s[i] == 'f');
        if starts_with_at(s, i, "true"@) {
            assert(s.subrange(i, i + 4)[0] == s[i]);
            assert(s[i] == 't');
        }
        assert(p_bool(s, i) == Some((false, i + 5)));
    }
}

/// The string-body parser turns the escape of `v` followed by a closing quote
/// back into `v`, appended to whatever was already accumulated.
pub proof fn lemma_p_str_rec_esc(s: Seq<char>, i: int, acc: Seq<char>, v: Seq<char>)
    requires
        starts_with_at(s, i, esc(v)),
        i + esc(v).len() < s.len(),
        s[i + esc(v).len()] == '"',
    ensures
        p_str_rec(s, i, acc) == Some((acc + v, i + esc(v).len() + 1)),
    decreases v.len(),
{
    if v.len() == 0 {
        assert(esc(v).len() == 0);
        assert(p_str_rec(s, i, acc) == Some((acc, i + 1)));
        assert(acc + v =~= acc);
    } else {
        let c = v[0];
        let rest = v.drop_first();
        let ec = esc_char(c);
        assert(esc(v) == ec + esc(rest));
        assert(s.subrange(i, i + esc(v).len())[0] == s[i]);
        assert(s[i] == ec[0]);
        if c == '"' || c == '\\' {
            assert(ec.len() == 2);
            assert(s[i] == '\\');
            assert(s.subrange(i, i + esc(v).len())[1] == s[i + 1]);
            assert(s[i + 1] == ec[1]);
            assert(ec[1] == c);
            assert(s.subrange(i + 2, i + 2 + esc(rest).len()) =~= esc(rest)) by {
                assert(forall|k: int| 0 <= k < esc(rest).len() ==> s.subrange(
                    i, i + esc(v).len())[k + 2] == #[trigger] esc(rest)[k]);
            }
            assert(starts_with_at(s, i + 2, esc(rest)));
            lemma_p_str_rec_esc(s, i + 2, acc.push(c), rest);
            assert(acc.push(c) + rest =~= acc + v);
            assert(p_str_rec(s, i, acc) == p_str_rec(s, i + 2, acc.push(c)));
        } else {
            assert(ec.len() == 1);
            assert(s[i] == c);
            assert(s.subrange(i + 1, i + 1 + esc(rest).len()) =~= esc(rest)) by {
                assert(forall|k: int| 0 <= k < esc(rest).len() ==> s.subrange(
                    i, i + esc(v).len())[k + 1] == #[trigger] esc(rest)[k]);
            }
            assert(starts_with_at(s, i + 1, esc(rest)));
            lemma_p_str_rec_esc(s, i + 1, acc.push(c), rest);
            assert(acc.push(c) + rest =~= acc + v);
            assert(p_str_rec(s, i, acc) == p_str_rec(s, i + 1, acc.push(c)));
        }
    }
}

/// Parsing inverts the string encoding.
pub proof fn lemma_p_str_enc(s: Seq<char>, i: int, v: Seq<char>)
    requires
        starts_with_at(s, i, enc_str(v)),
    ensures
        p_str(s, i) == Some((v, i + enc_str(v).len())),
{
    let e = enc_str(v);
    assert(s.subrange(i, i + e.len())[0] == s[i]);
    assert(s[i] == '"');
    assert(s.subrange(i + 1, i + 1 + esc(v).len()) =~= esc(v)) by {
        assert(forall|k: int| 0 <= k < esc(v).len() ==> s.subrange(i, i + e.len())[k + 1]
            == #[trigger] esc(v)[k]);
    }
    assert(starts_with_at(s, i + 1, esc(v)));
    assert(s.subrange(i, i + e.len())[e.len() - 1] == s[i + e.len() - 1]);
    assert(s[i + 1 + esc(v).len()] == '"');
    lemma_p_str_rec_esc(s, i + 1, Seq::empty(), v);
    assert(Seq::empty() + v =~= v);
}

/// A nonempty string array's body is longer than the array.
pub proof fn lemma_enc_strs_inner_len(l: Seq<Seq<char>>)
    requires
        l.len() >= 1,
    ensures
        enc_strs_inner(l).len() >= l.len() + 1,
    decreases l.len(),
{
    if l.len() == 1 {
        assert(enc_str(l[0]).len() >= 2);
    } else {
        lemma_enc_strs_inner_len(l.drop_first());
        assert(enc_str(l[0]).len() >= 2);
    }
}

/// The list parser turns the encoded bodies of `l` followed by `]` back into
/// `l`, appended to whatever was already accumulated.
pub proof fn lemma_p_strs_rec_enc(s: Seq<char>, i: int, acc: Seq<Seq<char>>, l: Seq<Seq<char>>, fuel: int)
    requires
        l.len() >= 1,
        starts_with_at(s, i, enc_strs_inner(l)),
        i + enc_strs_inner(l).len() < s.len(),
        s[i + enc_strs_inner(l).len()] == ']',
        fuel >= l.len(),
    ensures
        p_strs_rec(s, i, acc, fuel) == Some((acc + l, i + enc_strs_inner(l).len() + 1)),
    decreases l.len(),
{
    let e = enc_strs_inner(l);
    let e0 = enc_str(l[0]);
    if l.len() == 1 {
        assert(e == e0);
        lemma_p_str_enc(s, i, l[0]);
        let j = i + e0.len();
        assert(s[j] == ']');
        assert(acc.push(l[0]) =~= acc + l);
        assert(p_strs_rec(s, i, acc, fuel) == Some((acc.push(l[0]), j + 1)));
    } else {
        let rest = l.drop_first();
        assert(e == e0 + seq![','] + enc_strs_inner(rest));
        assert(s.subrange(i, i + e0.len()) =~= e0) by {
            assert(forall|k: int| 0 <= k < e0.len() ==> s.subrange(i, i + e.len())[k]
                == #[trigger] e0[k]);
        }
        assert(starts_with_at(s, i, e0));
        lemma_p_str_enc(s, i, l[0]);
        let j = i + e0.len();
        assert(s.subrange(i, i + e.len())[e0.len() as int] == s[j]);
        assert(s[j] == ',');
        assert(s.subrange(j + 1, j + 1 + enc_strs_inner(rest).len()) =~= enc_strs_inner(rest)) by {
            assert(forall|k: int| 0 <= k < enc_strs_inner(rest).len() ==> s.subrange(
                i, i + e.len())[k + e0.len() + 1] == #[trigger] enc_strs_inner(rest)[k]);
        }
        assert(starts_with_at(s, j + 1, enc_strs_inner(rest)));
        lemma_p_strs_rec_enc(s, j + 1, acc.push(l[0]), rest, fuel - 1);
        assert(acc.push(l[0]) + rest =~= acc + l);
        assert(p_strs_rec(s, i, acc, fuel) == p_strs_rec(s, j + 1, acc.push(l[0]), fuel - 1));
    }
}

/// Parsing inverts the string-array encoding.
pub proof fn lemma_p_strs_enc(s: Seq<char>, i: int, l: Seq<Seq<char>>)
    requires
        starts_with_at(s, i, enc_strs(l)),
    ensures
        p_strs(s, i) == Some((l, i + enc_strs(l).len())),
{
    let e = enc_strs(l);
    assert(s.subrange(i, i + e.len())[0] == s[i]);
    assert(s[i] == '[');
    assert(s.subrange(i, i + e.len())[1] == s[i + 1]);
    if l.len() == 0 {
        assert(e =~= seq!['[', ']']);
        assert(s[i + 1] == ']');
        assert(p_strs(s, i) == Some((Seq::<Seq<char>>::empty(), i + 2)));
        assert(l =~= Seq::<Seq<char>>::empty());
    } else {
        assert(s[i + 1] == enc_strs_inner(l)[0]);
        assert(enc_strs_inner(l)[0] == enc_str(l[0])[0]) by {
            if l.len() > 1 {
                assert(enc_strs_inner(l)[0] == (enc_str(l[0]) + seq![','] + enc_strs_inner(
                    l.drop_first()))[0]);
            }
        }
        assert(enc_str(l[0])[0] == '"');
        assert(s[i + 1] != ']');
        assert(s.subrange(i + 1, i + 1 + enc_strs_inner(l).len()) =~= enc_strs_inner(l)) by {
            assert(forall|k: int| 0 <= k < enc_strs_inner(l).len() ==> s.subrange(
                i, i + e.len())[k + 1] == #[trigger] enc_strs_inner(l)[k]);
        }
        assert(starts_with_at(s, i + 1, enc_strs_inner(l)));
        assert(s.subrange(i, i + e.len())[e.len() - 1] == s[i + e.len() - 1]);
        assert(s[i + 1 + enc_strs_inner(l).len()] == ']');
        lemma_enc_strs_inner_len(l);
        lemma_p_strs_rec_enc(s, i + 1, Seq::empty(), l, s.len() - i);
        assert(Seq::empty() + l =~= l);
    }
}

/// The cell parser turns the cell characters of `b` followed by a closing
/// quote back into `b`, appended to whatever was already accumulated.
pub proof fn lemma_p_cells_rec_enc(s: Seq<char>, i: int, acc: Seq<Option<usize>>, b: Seq<Option<usize>>)
    requires
        starts_with_at(s, i, enc_cells(b)),
        i + enc_cells(b).len() < s.len(),
        s[i + enc_cells(b).len()] == '"',
        forall|k: int| 0 <= k < b.len() ==> ((#[trigger] b[k]) is Some ==> b[k]->0 < 10),
    ensures
        p_cells_rec(s, i, acc) == Some((acc + b, i + enc_cells(b).len() + 1)),
    decreases b.len(),
{
    if b.len() == 0 {
        assert(enc_cells(b).len() == 0);
        assert(p_cells_rec(s, i, acc) == Some((acc, i + 1)));
        assert(acc + b =~= acc);
    } else {
        let c = b[0];
        let rest = b.drop_first();
        assert(enc_cells(b) == seq![cell_char(c)] + enc_cells(rest));
        assert(s.subrange(i, i + enc_cells(b).len())[0] == s[i]);
        assert(s[i] == cell_char(c));
        assert(s.subrange(i + 1, i + 1 + enc_cells(rest).len()) =~= enc_cells(rest)) by {
            assert(forall|k: int| 0 <= k < enc_cells(rest).len() ==> s.subrange(
                i, i + enc_cells(b).len())[k + 1] == #[trigger] enc_cells(rest)[k]);
        }
        assert(starts_with_at(s, i + 1, enc_cells(rest)));
        assert(forall|k: int| 0 <= k < rest.len() ==> rest[k] == b[k + 1]);
        lemma_p_cells_rec_enc(s, i + 1, acc.push(c), rest);
        match c {
            None => {
                assert(s[i] == '.');
                assert(p_cells_rec(s, i, acc) == p_cells_rec(s, i + 1, acc.push(None)));
            },
            Some(w) => {
                assert(w < 10);
                assert(s[i] == digit_char(w as int));
                assert(digit_val(s[i]) == w as int);
                assert(is_digit(s[i]));
                assert(s[i] != '"' && s[i] != '.');
                assert(p_cells_rec(s, i, acc) == p_cells_rec(
                    s, i + 1, acc.push(Some(digit_val(s[i]) as usize))));
                assert(digit_val(s[i]) as usize == w);
            },
        }
        assert(acc.push(c) + rest =~= acc + b);
    }
}

/// Parsing inverts the board encoding.
pub proof fn lemma_p_cells_enc(s: Seq<char>, i: int, b: Seq<Option<usize>>)
    requires
        starts_with_at(s, i, enc_board(b)),
        forall|k: int| 0 <= k < b.len() ==> ((#[trigger] b[k]) is Some ==> b[k]->0 < 10),
    ensures
        p_cells(s, i) == Some((b, i + enc_board(b).len())),
{
    let e = enc_board(b);
    assert(s.subrange(i, i + e.len())[0] == s[i]);
    assert(s[i] == '"');
    assert(s.subrange(i + 1, i + 1 + enc_cells(b).len()) =~= enc_cells(b)) by {
        assert(forall|k: int| 0 <= k < enc_cells(b).len() ==> s.subrange(i, i + e.len())[k + 1]
            == #[trigger] enc_cells(b)[k]);
    }
    assert(starts_with_at(s, i + 1, enc_cells(b)));
    assert(s.subrange(i, i + e.len())[e.len() - 1] == s[i + e.len() - 1]);
    assert(s[i + 1 + enc_cells(b).len()] == '"');
    lemma_p_cells_rec_enc(s, i + 1, Seq::empty(), b);
    assert(Seq::empty() + b =~= b);
}

/// Whether `lit` occurs in `chars` at position `i`.
pub(crate) fn match_at(chars: &Vec<char>, i: usize, lit: &str) -> (r: bool)
    ensures
        r == starts_with_at(chars@, i as int, lit@),
{
    let lv = str_chars(lit);
    if i > chars.len() || chars.len() - i < lv.len() {
        return false;
    }
    let mut k: usize = 0;
    while k < lv.len()
        invariant
            k <= lv.len(),
            i + lv.len() <= chars.len(),
            lv@ == lit@,
            forall|t: int| 0 <= t < k as int ==> chars@[i as int + t] == lit@[t],
        decreases lv.len() - k,
    {
        if chars[i + k] != lv[k] {
            proof {
                if starts_with_at(chars@, i as int, lit@) {
                    assert(chars@.subrange(i as int, i as int + lit@.len())[k as int]
                        == lit@[k as int]);
                }
            }
            return false;
        }
        k = k + 1;
    }
    proof {
        assert(chars@.subrange(i as int, i as int + lit@.len()) =~= lit@);
    }
    true
}

/// Parses a decimal number at position `i`.
pub(crate) fn parse_u64(chars: &Vec<char>, i: usize) -> (r: Option<(u64, usize)>)
    ensures
        match r {
            Some(p) => p_u64(chars@, i as int) == Some((p.0, p.1 as int)) && i < p.1
                <= chars.len(),
            None => p_u64(chars@, i as int) is None,
        },
{
    if i >= chars.len() {
        return None;
    }
    if digit_of(chars[i]) == 10 {
        return None;
    }
    let mut acc: u64 = 0;
    let mut j: usize = i;
    loop
        invariant
            i <= j <= chars.len(),
            i < chars.len() && is_digit(chars@[i as int]),
            p_u64_rec(chars@, i as int, 0) == p_u64_rec(chars@, j as int, acc),
        decreases chars.len() - j,
    {
        if j >= chars.len() {
            return Some((acc, j));
        }
        let d = digit_of(chars[j]);
        if d == 10 {
            return Some((acc, j));
        }
        if acc > (u64::MAX - d) / 10 {
            return None;
        }
        acc = acc * 10 + d;
        j = j + 1;
    }
}

/// Parses a boolean at position `i`.
pub(crate) fn parse_bool(chars: &Vec<char>, i: usize) -> (r: Option<(bool, usize)>)
    ensures
        match r {
            Some(p) => p_bool(chars@, i as int) == Some((p.0, p.1 as int)) && i < p.1
                <= chars.len(),
            None => p_bool(chars@, i as int) is None,
        },
{
    proof {
        reveal_strlit("true");
        reveal_strlit("false");
        assert("true"@.len() == 4);
        assert("false"@.len() == 5);
    }
    let n = chars.len();
    if match_at(chars, i, "true") {
        proof {
            assert(i + 4 <= n);
        }
        return Some((true, i + 4));
    }
    if match_at(chars, i, "false") {
        proof {
            assert(i + 5 <= n);
        }
        return Some((false, i + 5));
    }
    None
}

/// Parses a quoted string at position `i`.
pub(crate) fn parse_string(chars: &Vec<char>, i: usize) -> (r: Option<(Vec<char>, usize)>)
    ensures
        match r {
            Some(p) => p_str(chars@, i as int) == Some((p.0@, p.1 as int)) && i < p.1
                <= chars.len(),
            None => p_str(chars@, i as int) is None,
        },
{
    if i >= chars.len() {
        return None;
    }
    if chars[i] != '"' {
        return None;
    }
    let mut acc: Vec<char> = Vec::new();
    let mut j: usize = i + 1;
    proof {
        assert(acc@ =~= Seq::<char>::empty());
    }
    loop
        invariant
            i as int + 1 <= j as int <= chars.len() as int,
            i < chars.len(),
            chars@[i as int] == '"',
            p_str_rec(chars@, i as int + 1, Seq::empty()) == p_str_rec(chars@, j as int, acc@),
        decreases chars.len() - j,
    {
        if j >= chars.len() {
            return None;
        }
        let c = chars[j];
        if c == '"' {
            return Some((acc, j + 1));
        }
        if c == '\\' {
            if j + 1 < chars.len() {
                let e = chars[j + 1];
                if e == '"' || e == '\\' {
                    acc.push(e);
                    j = j + 2;
                } else {
                    return None;
                }
            } else {
                return None;
            }
        } else {
            acc.push(c);
            j = j + 1;
        }
    }
}

/// Parses a bracketed string array at position `i`.
pub(crate) fn parse_strings(chars: &Vec<char>, i: usize) -> (r: Option<(Vec<String>, usize)>)
    ensures
        match r {
            Some(p) => p_strs(chars@, i as int) == Some((crate::game::strs_view(p.0@), p.1 as int))
                && i < p.1 <= chars.len(),
            None => p_strs(chars@, i as int) is None,
        },
{
    if i >= chars.len() || i + 1 >= chars.len() {
        return None;
    }
    if chars[i] != '[' {
        return None;
    }
    if chars[i + 1] == ']' {
        let empty_list: Vec<String> = Vec::new();
        proof {
            assert(crate::game::strs_view(empty_list@) =~= Seq::<Seq<char>>::empty());
        }
        return Some((empty_list, i + 2));
    }
    let mut acc: Vec<String> = Vec::new();
    let mut j: usize = i + 1;
    let mut fuel: usize = chars.len() - i;
    proof {
        assert(crate::game::strs_view(acc@) =~= Seq::<Seq<char>>::empty());
    }
    loop
        invariant
            i as int + 1 <= j as int <= chars.len() as int,
            i + 1 < chars.len(),
            chars@[i as int] == '[',
            chars@[i as int + 1] != ']',
            p_strs_rec(chars@, i as int + 1, Seq::empty(), chars@.len() - i as int)
                == p_strs_rec(chars@, j as int, crate::game::strs_view(acc@), fuel as int),
        decreases fuel,
    {
        if fuel == 0 {
            return None;
        }
        match parse_string(chars, j) {
            None => {
                return None;
            },
            Some(p) => {
                let (v, j2) = p;
                let sv = chars_to_string(&v);
                let ghost pre = crate::game::strs_view(acc@);
                if j2 < chars.len() && chars[j2] == ',' {
                    acc.push(sv);
                    proof {
                        assert(crate::game::strs_view(acc@) =~= pre.push(v@));
                    }
                    j = j2 + 1;
                    fuel = fuel - 1;
                } else if j2 < chars.len() && chars[j2] == ']' {
                    acc.push(sv);
                    proof {
                        assert(crate::game::strs_view(acc@) =~= pre.push(v@));
                    }
                    return Some((acc, j2 + 1));
                } else {
                    return None;
                }
            },
        }
    }
}

/// Parses a quoted board at position `i`.
pub(crate) fn parse_cells(chars: &Vec<char>, i: usize) -> (r: Option<(Vec<Option<usize>>, usize)>)
    ensures
        match r {
            Some(p) => p_cells(chars@, i as int) == Some((p.0@, p.1 as int)) && i < p.1
                <= chars.len(),
            None => p_cells(chars@, i as int) is None,
        },
{
    if i >= chars.len() {
        return None;
    }
    if chars[i] != '"' {
        return None;
    }
    let mut acc: Vec<Option<usize>> = Vec::new();
    let mut j: usize = i + 1;
    proof {
        assert(acc@ =~= Seq::<Option<usize>>::empty());
    }
    loop
        invariant
            i as int + 1 <= j as int <= chars.len() as int,
            i < chars.len(),
            chars@[i as int] == '"',
            p_cells_rec(chars@, i as int + 1, Seq::empty()) == p_cells_rec(chars@, j as int, acc@),
        decreases chars.len() - j,
    {
        if j >= chars.len() {
            return None;
        }
        let c = chars[j];
        if c == '"' {
            return Some((acc, j + 1));
        }
        if c == '.' {
            acc.push(None);
            j = j + 1;
        } else {
            let d = digit_of(c);
            if d == 10 {
                return None;
            }
            acc.push(Some(d as usize));
            j = j + 1;
        }
    }
}

/// One step of building a string array from the left: the encoded prefix of
/// `i + 1` entries is the prefix of `i` entries, a separating comma when one
/// is due, and the entry itself.
pub proof fn lemma_enc_strs_inner_take(l: Seq<Seq<char>>, i: int)
    requires
        0 <= i < l.len(),
    ensures
        enc_strs_inner(l.take(i + 1)) == enc_strs_inner(l.take(i)) + if i == 0 {
            Seq::<char>::empty()
        } else {
            seq![',']
        } + enc_str(l[i]),
    decreases i,
{
    let sep: Seq<char> = if i == 0 {
        Seq::empty()
    } else {
        seq![',']
    };
    if i == 0 {
        assert(l.take(1) =~= seq![l[0]]);
        assert(seq![l[0]].drop_first() =~= Seq::<Seq<char>>::empty());
        assert(enc_strs_inner(l.take(1)) == enc_str(l[0]));
        assert(l.take(0) =~= Seq::<Seq<char>>::empty());
        assert(enc_strs_inner(l.take(0)) + sep + enc_str(l[0]) =~= enc_str(l[0]));
    } else {
        let rest = l.drop_first();
        lemma_enc_strs_inner_take(rest, i - 1);
        assert(l.take(i + 1).drop_first() =~= rest.take(i));
        assert(l.take(i + 1).len() >= 2);
        assert(l.take(i + 1)[0] == l[0]);
        assert(enc_strs_inner(l.take(i + 1)) == enc_str(l[0]) + seq![','] + enc_strs_inner(
            rest.take(i)));
        assert(rest[i - 1] == l[i]);
        if i == 1 {
            assert(enc_strs_inner(rest.take(0)) =~= Seq::<char>::empty());
            assert(enc_strs_inner(rest.take(1)) =~= enc_str(rest[0]));
            assert(l.take(1) =~= seq![l[0]]);
            assert(seq![l[0]].drop_first() =~= Seq::<Seq<char>>::empty());
            assert(enc_strs_inner(l.take(1)) == enc_str(l[0]));
            assert(enc_str(l[0]) + seq![','] + enc_strs_inner(rest.take(1)) =~= enc_strs_inner(
                l.take(1)) + sep + enc_str(l[1]));
        } else {
            assert(l.take(i).drop_first() =~= rest.take(i - 1));
            assert(l.take(i).len() >= 2);
            assert(l.take(i)[0] == l[0]);
            assert(enc_strs_inner(l.take(i)) == enc_str(l[0]) + seq![','] + enc_strs_inner(
                rest.take(i - 1)));
            assert(enc_str(l[0]) + seq![','] + (enc_strs_inner(rest.take(i - 1)) + seq![',']
                + enc_str(rest[i - 1])) =~= enc_strs_inner(l.take(i)) + sep + enc_str(l[i]));
        }
    }
}

} // verus!
