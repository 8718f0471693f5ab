//! The value codec: entities are stored as text built from a few primitive
//! fields.  A number is written in decimal; a string is written as its
//! length, a colon, and its characters, so arbitrary content needs no
//! escaping; a boolean is a single digit; a signed number carries an
//! explicit sign.  Parsing is exact: every parser states precisely which
//! texts it accepts and what it yields, and encoding followed by parsing
//! gives back the original value.

use vstd::prelude::*;

verus! {

/// The largest length or count a stored field may carry.
pub open spec fn usize_max() -> nat {
    usize::MAX as nat
}

pub open spec fn is_digit(c: char) -> bool {
    '0' <= c && c <= '9'
}

/// The character for one decimal digit.
pub open spec fn char_of_digit(d: nat) -> char {
    if d == 0 {
        '0'
    } else if d == 1 {
        '1'
    } else if d == 2 {
        '2'
    } else if d == 3 {
        '3'
    } else if d == 4 {
        '4'
    } else if d == 5 {
        '5'
    } else if d == 6 {
        '6'
    } else if d == 7 {
        '7'
    } else if d == 8 {
        '8'
    } else {
        '9'
    }
}

/// The value of one decimal digit character.
pub open spec fn digit_of_char(c: char) -> nat {
    if c == '0' {
        0
    } else if c == '1' {
        1
    } else if c == '2' {
        2
    } else if c == '3' {
        3
    } else if c == '4' {
        4
    } else if c == '5' {
        5
    } else if c == '6' {
        6
    } else if c == '7' {
        7
    } else if c == '8' {
        8
    } else {
        9
    }
}

/// The decimal digits of a number, most significant first.
pub open spec fn dig_seq(n: nat) -> Seq<char>
    decreases n,
{
    if n < 10 {
        seq![char_of_digit(n)]
    } else {
        dig_seq(n / 10) + seq![char_of_digit(n % 10)]
    }
}

/// The value of a run of digit characters.
pub open spec fn val_of(ds: Seq<char>) -> nat
    decreases ds.len(),
{
    if ds.len() == 0 {
        0
    } else {
        val_of(ds.drop_last()) * 10 + digit_of_char(ds.last())
    }
}

/// The end of the run of digit characters starting at `i`.
pub open spec fn digits_end(s: Seq<char>, i: int) -> int
    decreases s.len() - i,
{
    if 0 <= i < s.len() && is_digit(s[i]) {
        digits_end(s, i + 1)
    } else {
        i
    }
}

/// Parse an unsigned decimal number at `i`: at least one digit, value no
/// larger than the machine can hold.  Yields the value and the position
/// after the digits.
pub open spec fn parse_num(s: Seq<char>, i: int) -> Option<(nat, int)> {
    let j = digits_end(s, i);
    if j == i {
        None
    } else if val_of(s.subrange(i, j)) > usize_max() {
        None
    } else {
        Some((val_of(s.subrange(i, j)), j))
    }
}

/// Every digit run ends within the sequence, after only digits.
pub proof fn lemma_digits_end(s: Seq<char>, i: int)
    requires
        0 <= i <= s.len(),
    ensures
        i <= digits_end(s, i) <= s.len(),
        forall|k: int| i <= k < digits_end(s, i) ==> is_digit(s[k]),
        digits_end(s, i) == s.len() || !is_digit(s[digits_end(s, i)]),
    decreases s.len() - i,
{
    if i < s.len() && is_digit(s[i]) {
        lemma_digits_end(s, i + 1);
    }
}

/// A digit run is pinned by its content: if everything from `i` up to `j`
/// is a digit and `j` sits on a non-digit or the end, the run ends at `j`.
pub proof fn lemma_digits_end_exact(s: Seq<char>, i: int, j: int)
    requires
        0 <= i <= j <= s.len(),
        forall|k: int| i <= k < j ==> is_digit(s[k]),
        j == s.len() || !is_digit(s[j]),
    ensures
        digits_end(s, i) == j,
    decreases j - i,
{
    if i < j {
        assert(is_digit(s[i]));
        lemma_digits_end_exact(s, i + 1, j);
    }
}

/// All characters of an encoded number are digits.
pub proof fn lemma_dig_seq_digits(n: nat)
    ensures
        dig_seq(n).len() >= 1,
        forall|k: int| 0 <= k < dig_seq(n).len() ==> is_digit(dig_seq(n)[k]),
    decreases n,
{
    if n < 10 {
    } else {
        lemma_dig_seq_digits(n / 10);
        assert(forall|k: int|
            0 <= k < dig_seq(n / 10).len() ==> dig_seq(n)[k] == dig_seq(n / 10)[k]);
        assert(dig_seq(n).last() == char_of_digit(n % 10));
    }
}

/// A digit character carries its digit.
pub proof fn lemma_digit_char_round(d: nat)
    requires
        d < 10,
    ensures
        digit_of_char(char_of_digit(d)) == d,
{
}

/// Parsing the digits of a number gives the number back.
pub proof fn lemma_val_of_dig_seq(n: nat)
    ensures
        val_of(dig_seq(n)) == n,
    decreases n,
{
    if n < 10 {
        lemma_digit_char_round(n);
        assert(dig_seq(n) == seq![char_of_digit(n)]);
        assert(dig_seq(n).drop_last() =~= Seq::<char>::empty());
        assert(dig_seq(n).last() == char_of_digit(n));
        assert(val_of(dig_seq(n)) == val_of(Seq::<char>::empty()) * 10 + digit_of_char(
            char_of_digit(n),
        ));
    } else {
        lemma_val_of_dig_seq(n / 10);
        lemma_digit_char_round(n % 10);
        assert(dig_seq(n).drop_last() =~= dig_seq(n / 10));
        assert(dig_seq(n).last() == char_of_digit(n % 10));
        assert(val_of(dig_seq(n)) == val_of(dig_seq(n / 10)) * 10 + digit_of_char(char_of_digit(
            n % 10,
        )));
        assert(n / 10 * 10 + n % 10 == n);
    }
}

/// Appending one digit multiplies the value by ten and adds the digit.
pub proof fn lemma_val_of_push(ds: Seq<char>, c: char)
    ensures
        val_of(ds.push(c)) == val_of(ds) * 10 + digit_of_char(c),
{
    assert(ds.push(c).drop_last() =~= ds);
    assert(ds.push(c).last() == c);
}

/// A longer digit run never has a smaller value.
pub proof fn lemma_val_of_mono(s: Seq<char>, i: int, j1: int, j2: int)
    requires
        0 <= i <= j1 <= j2 <= s.len(),
    ensures
        val_of(s.subrange(i, j1)) <= val_of(s.subrange(i, j2)),
    decreases j2 - j1,
{
    if j1 < j2 {
        lemma_val_of_mono(s, i, j1, j2 - 1);
        assert(s.subrange(i, j2).drop_last() =~= s.subrange(i, j2 - 1));
        assert(val_of(s.subrange(i, j2)) == val_of(s.subrange(i, j2 - 1)) * 10 + digit_of_char(
            s.subrange(i, j2).last(),
        ));
        assert(val_of(s.subrange(i, j2 - 1)) * 10 >= val_of(s.subrange(i, j2 - 1)));
    }
}

/// An encoded number placed at `i` and followed by a non-digit parses back
/// to itself, leaving the cursor right after its digits.
pub proof fn lemma_parse_num_of_enc(s: Seq<char>, i: int, n: nat)
    requires
        0 <= i,
        i + dig_seq(n).len() <= s.len(),
        s.subrange(i, i + dig_seq(n).len() as int) == dig_seq(n),
        n <= usize_max(),
        i + dig_seq(n).len() == s.len() || !is_digit(s[i + dig_seq(n).len()]),
    ensures
        parse_num(s, i) == Some((n, i + dig_seq(n).len() as int)),
{
    let j = i + dig_seq(n).len() as int;
    lemma_dig_seq_digits(n);
    assert forall|k: int| i <= k < j implies is_digit(s[k]) by {
        assert(s.subrange(i, j)[k - i] == s[k]);
        assert(is_digit(dig_seq(n)[k - i]));
    }
    lemma_digits_end_exact(s, i, j);
    lemma_val_of_dig_seq(n);
}

// ---------------------------------------------------------------------------
// Encoded fields.  Each field is self-delimiting, so fields concatenate
// without separators.
// ---------------------------------------------------------------------------

/// An unsigned number field: digits closed by a semicolon.
pub open spec fn enc_num(n: nat) -> Seq<char> {
    dig_seq(n) + seq![';']
}

/// A string field: the length, a colon, then the characters themselves.
pub open spec fn enc_str(v: Seq<char>) -> Seq<char> {
    dig_seq(v.len()) + seq![':'] + v
}

/// A boolean field: a single digit.
pub open spec fn enc_bool(b: bool) -> Seq<char> {
    if b {
        seq!['1']
    } else {
        seq!['0']
    }
}

/// A signed number field: an explicit sign, digits, a semicolon.
pub open spec fn enc_i32(v: int) -> Seq<char> {
    if v >= 0 {
        seq!['+'] + dig_seq(v as nat) + seq![';']
    } else {
        seq!['-'] + dig_seq((-v) as nat) + seq![';']
    }
}

/// A list of string fields: the count, then each element.
pub open spec fn enc_str_list_items(l: Seq<Seq<char>>) -> Seq<char>
    decreases l.len(),
{
    if l.len() == 0 {
        Seq::<char>::empty()
    } else {
        enc_str(l[0]) + enc_str_list_items(l.drop_first())
    }
}

pub open spec fn enc_str_list(l: Seq<Seq<char>>) -> Seq<char> {
    enc_num(l.len()) + enc_str_list_items(l)
}

/// A list of signed number fields: the count, then each element.
pub open spec fn enc_i32_list_items(l: Seq<int>) -> Seq<char>
    decreases l.len(),
{
    if l.len() == 0 {
        Seq::<char>::empty()
    } else {
        enc_i32(l[0]) + enc_i32_list_items(l.drop_first())
    }
}

pub open spec fn enc_i32_list(l: Seq<int>) -> Seq<char> {
    enc_num(l.len()) + enc_i32_list_items(l)
}

/// An optional string field: a marker, then the string if present.
pub open spec fn enc_opt_str(o: Option<Seq<char>>) -> Seq<char> {
    match o {
        Option::None => seq!['n'],
        Option::Some(v) => seq!['s'] + enc_str(v),
    }
}

/// An optional unsigned number field: a marker, then the number if present.
pub open spec fn enc_opt_num(o: Option<nat>) -> Seq<char> {
    match o {
        Option::None => seq!['n'],
        Option::Some(n) => seq!['s'] + enc_num(n),
    }
}

// ---------------------------------------------------------------------------
// Parsers.  Each takes the text and a cursor and yields the value with the
// cursor moved past the field, or nothing if the text does not carry the
// field there.
// ---------------------------------------------------------------------------

/// Step over one expected character.
pub open spec fn parse_lit(s: Seq<char>, i: int, c: char) -> Option<int> {
    if 0 <= i < s.len() && s[i] == c {
        Some(i + 1)
    } else {
        None
    }
}

pub open spec fn parse_num_field(s: Seq<char>, i: int) -> Option<(nat, int)> {
    match parse_num(s, i) {
        Option::Some((n, j)) => match parse_lit(s, j, ';') {
            Option::Some(j2) => Some((n, j2)),
            Option::None => None,
        },
        Option::None => None,
    }
}

pub open spec fn parse_str(s: Seq<char>, i: int) -> Option<(Seq<char>, int)> {
    match parse_num(s, i) {
        Option::Some((n, j)) => match parse_lit(s, j, ':') {
            Option::Some(j2) => if j2 + n <= s.len() {
                Some((s.subrange(j2, j2 + n), j2 + n as int))
            } else {
                None
            },
            Option::None => None,
        },
        Option::None => None,
    }
}

pub open spec fn parse_bool(s: Seq<char>, i: int) -> Option<(bool, int)> {
    if 0 <= i < s.len() && s[i] == '0' {
        Some((false, i + 1))
    } else if 0 <= i < s.len() && s[i] == '1' {
        Some((true, i + 1))
    } else {
        None
    }
}

pub open spec fn parse_i32(s: Seq<char>, i: int) -> Option<(int, int)> {
    if 0 <= i < s.len() && (s[i] == '+' || s[i] == '-') {
        match parse_num(s, i + 1) {
            Option::Some((n, j)) => {
                let v = if s[i] == '-' {
                    -(n as int)
                } else {
                    n as int
                };
                if v < i32::MIN as int || v > i32::MAX as int {
                    None
                } else {
                    match parse_lit(s, j, ';') {
                        Option::Some(j2) => Some((v, j2)),
                        Option::None => None,
                    }
                }
            },
            Option::None => None,
        }
    } else {
        None
    }
}

pub open spec fn parse_str_list_items(s: Seq<char>, i: int, count: nat) -> Option<
    (Seq<Seq<char>>, int),
>
    decreases count,
{
    if count == 0 {
        Some((Seq::<Seq<char>>::empty(), i))
    } else {
        match parse_str(s, i) {
            Option::Some((v, j)) => match parse_str_list_items(s, j, (count - 1) as nat) {
                Option::Some((l, j2)) => Some((seq![v] + l, j2)),
                Option::None => None,
            },
            Option::None => None,
        }
    }
}

pub open spec fn parse_str_list(s: Seq<char>, i: int) -> Option<(Seq<Seq<char>>, int)> {
    match parse_num_field(s, i) {
        Option::Some((n, j)) => parse_str_list_items(s, j, n),
        Option::None => None,
    }
}

pub open spec fn parse_i32_list_items(s: Seq<char>, i: int, count: nat) -> Option<
    (Seq<int>, int),
>
    decreases count,
{
    if count == 0 {
        Some((Seq::<int>::empty(), i))
    } else {
        match parse_i32(s, i) {
            Option::Some((v, j)) => match parse_i32_list_items(s, j, (count - 1) as nat) {
                Option::Some((l, j2)) => Some((seq![v] + l, j2)),
                Option::None => None,
            },
            Option::None => None,
        }
    }
}

pub open spec fn parse_i32_list(s: Seq<char>, i: int) -> Option<(Seq<int>, int)> {
    match parse_num_field(s, i) {
        Option::Some((n, j)) => parse_i32_list_items(s, j, n),
        Option::None => None,
    }
}

pub open spec fn parse_opt_str(s: Seq<char>, i: int) -> Option<(Option<Seq<char>>, int)> {
    if 0 <= i < s.len() && s[i] == 'n' {
        Some((Option::None, i + 1))
    } else if 0 <= i < s.len() && s[i] == 's' {
        match parse_str(s, i + 1) {
            Option::Some((v, j)) => Some((Option::Some(v), j)),
            Option::None => None,
        }
    } else {
        None
    }
}

pub open spec fn parse_opt_num(s: Seq<char>, i: int) -> Option<(Option<nat>, int)> {
    if 0 <= i < s.len() && s[i] == 'n' {
        Some((Option::None, i + 1))
    } else if 0 <= i < s.len() && s[i] == 's' {
        match parse_num_field(s, i + 1) {
            Option::Some((n, j)) => Some((Option::Some(n), j)),
            Option::None => None,
        }
    } else {
        None
    }
}

// ---------------------------------------------------------------------------
// Round trips: an encoded field placed anywhere in a longer text parses
// back to the value it encodes.
// ---------------------------------------------------------------------------

/// The characters of an encoded field placed at `i` in `s`.
pub open spec fn placed(s: Seq<char>, i: int, e: Seq<char>) -> bool {
    &&& 0 <= i
    &&& i + e.len() <= s.len()
    &&& s.subrange(i, i + e.len() as int) == e
}

/// Placement distributes over concatenation.
pub proof fn lemma_placed_concat(s: Seq<char>, i: int, e1: Seq<char>, e2: Seq<char>)
    requires
        placed(s, i, e1 + e2),
    ensures
        placed(s, i, e1),
        placed(s, i + e1.len(), e2),
{
    let e = e1 + e2;
    assert forall|k: int| 0 <= k < e1.len() implies s[i + k] == e1[k] by {
        assert(s.subrange(i, i + e.len() as int)[k] == s[i + k]);
        assert(e[k] == e1[k]);
    }
    assert(s.subrange(i, i + e1.len() as int) =~= e1);
    assert forall|m: int| 0 <= m < e2.len() implies s[i + e1.len() + m] == e2[m] by {
        assert(s.subrange(i, i + e.len() as int)[e1.len() + m] == s[i + (e1.len() + m)]);
        assert(e[e1.len() + m] == e2[m]);
    }
    assert(s.subrange(i + e1.len(), i + e1.len() + e2.len() as int) =~= e2);
}

pub proof fn lemma_parse_num_field_of_enc(s: Seq<char>, i: int, n: nat)
    requires
        placed(s, i, enc_num(n)),
        n <= usize_max(),
    ensures
        parse_num_field(s, i) == Some((n, i + enc_num(n).len() as int)),
{
    lemma_placed_concat(s, i, dig_seq(n), seq![';']);
    let dl = dig_seq(n).len() as int;
    assert(s[i + dl] == ';') by {
        assert(s.subrange(i + dl, i + dl + 1)[0] == s[i + dl]);
    }
    lemma_parse_num_of_enc(s, i, n);
}

pub proof fn lemma_parse_str_of_enc(s: Seq<char>, i: int, v: Seq<char>)
    requires
        placed(s, i, enc_str(v)),
        v.len() <= usize_max(),
    ensures
        parse_str(s, i) == Some((v, i + enc_str(v).len() as int)),
{
    lemma_placed_concat(s, i, dig_seq(v.len()) + seq![':'], v);
    lemma_placed_concat(s, i, dig_seq(v.len()), seq![':']);
    let dl = dig_seq(v.len()).len() as int;
    assert(s[i + dl] == ':') by {
        assert(s.subrange(i + dl, i + dl + 1)[0] == s[i + dl]);
    }
    lemma_parse_num_of_enc(s, i, v.len());
    assert(s.subrange(i + dl + 1, i + dl + 1 + v.len() as int) == v);
}

pub proof fn lemma_parse_bool_of_enc(s: Seq<char>, i: int, b: bool)
    requires
        placed(s, i, enc_bool(b)),
    ensures
        parse_bool(s, i) == Some((b, i + enc_bool(b).len() as int)),
{
    assert(s[i] == enc_bool(b)[0]) by {
        assert(s.subrange(i, i + 1)[0] == s[i]);
    }
}

pub proof fn lemma_parse_i32_of_enc(s: Seq<char>, i: int, v: int)
    requires
        placed(s, i, enc_i32(v)),
        i32::MIN as int <= v <= i32::MAX as int,
    ensures
        parse_i32(s, i) == Some((v, i + enc_i32(v).len() as int)),
{
    let mag: nat = if v >= 0 {
        v as nat
    } else {
        (-v) as nat
    };
    let sign: char = if v >= 0 {
        '+'
    } else {
        '-'
    };
    assert(enc_i32(v) == seq![sign] + dig_seq(mag) + seq![';']) by {
        assert(enc_i32(v) =~= seq![sign] + dig_seq(mag) + seq![';']);
    }
    lemma_placed_concat(s, i, seq![sign] + dig_seq(mag), seq![';']);
    lemma_placed_concat(s, i, seq![sign], dig_seq(mag));
    assert(s[i] == sign) by {
        assert(s.subrange(i, i + 1)[0] == s[i]);
    }
    let dl = dig_seq(mag).len() as int;
    assert(s[i + 1 + dl] == ';') by {
        assert(s.subrange(i + 1 + dl, i + 1 + dl + 1)[0] == s[i + 1 + dl]);
    }
    lemma_parse_num_of_enc(s, i + 1, mag);
}

pub proof fn lemma_parse_str_list_items_of_enc(s: Seq<char>, i: int, l: Seq<Seq<char>>)
    requires
        placed(s, i, enc_str_list_items(l)),
        forall|k: int| 0 <= k < l.len() ==> (#[trigger] l[k]).len() <= usize_max(),
    ensures
        parse_str_list_items(s, i, l.len()) == Some(
            (l, i + enc_str_list_items(l).len() as int),
        ),
    decreases l.len(),
{
    if l.len() == 0 {
        assert(l =~= Seq::<Seq<char>>::empty());
    } else {
        lemma_placed_concat(s, i, enc_str(l[0]), enc_str_list_items(l.drop_first()));
        lemma_parse_str_of_enc(s, i, l[0]);
        lemma_parse_str_list_items_of_enc(s, i + enc_str(l[0]).len(), l.drop_first());
        assert(seq![l[0]] + l.drop_first() =~= l);
    }
}

pub proof fn lemma_parse_str_list_of_enc(s: Seq<char>, i: int, l: Seq<Seq<char>>)
    requires
        placed(s, i, enc_str_list(l)),
        l.len() <= usize_max(),
        forall|k: int| 0 <= k < l.len() ==> (#[trigger] l[k]).len() <= usize_max(),
    ensures
        parse_str_list(s, i) == Some((l, i + enc_str_list(l).len() as int)),
{
    lemma_placed_concat(s, i, enc_num(l.len()), enc_str_list_items(l));
    lemma_parse_num_field_of_enc(s, i, l.len());
    lemma_parse_str_list_items_of_enc(s, i + enc_num(l.len()).len(), l);
}

pub proof fn lemma_parse_i32_list_items_of_enc(s: Seq<char>, i: int, l: Seq<int>)
    requires
        placed(s, i, enc_i32_list_items(l)),
        forall|k: int| 0 <= k < l.len() ==> i32::MIN as int <= #[trigger] l[k] <= i32::MAX as int,
    ensures
        parse_i32_list_items(s, i, l.len()) == Some(
            (l, i + enc_i32_list_items(l).len() as int),
        ),
    decreases l.len(),
{
    if l.len() == 0 {
        assert(l =~= Seq::<int>::empty());
    } else {
        lemma_placed_concat(s, i, enc_i32(l[0]), enc_i32_list_items(l.drop_first()));
        lemma_parse_i32_of_enc(s, i, l[0]);
        lemma_parse_i32_list_items_of_enc(s, i + enc_i32(l[0]).len(), l.drop_first());
        assert(seq![l[0]] + l.drop_first() =~= l);
    }
}

pub proof fn lemma_parse_i32_list_of_enc(s: Seq<char>, i: int, l: Seq<int>)
    requires
        placed(s, i, enc_i32_list(l)),
        l.len() <= usize_max(),
        forall|k: int| 0 <= k < l.len() ==> i32::MIN as int <= #[trigger] l[k] <= i32::MAX as int,
    ensures
        parse_i32_list(s, i) == Some((l, i + enc_i32_list(l).len() as int)),
{
    lemma_placed_concat(s, i, enc_num(l.len()), enc_i32_list_items(l));
    lemma_parse_num_field_of_enc(s, i, l.len());
    lemma_parse_i32_list_items_of_enc(s, i + enc_num(l.len()).len(), l);
}

pub proof fn lemma_parse_opt_str_of_enc(s: Seq<char>, i: int, o: Option<Seq<char>>)
    requires
        placed(s, i, enc_opt_str(o)),
        o matches Option::Some(v) ==> v.len() <= usize_max(),
    ensures
        parse_opt_str(s, i) == Some((o, i + enc_opt_str(o).len() as int)),
{
    match o {
        Option::None => {
            assert(s[i] == 'n') by {
                assert(s.subrange(i, i + 1)[0] == s[i]);
            }
        },
        Option::Some(v) => {
            lemma_placed_concat(s, i, seq!['s'], enc_str(v));
            assert(s[i] == 's') by {
                assert(s.subrange(i, i + 1)[0] == s[i]);
            }
            lemma_parse_str_of_enc(s, i + 1, v);
        },
    }
}

/// A run of digits reaches the same end wherever inside it the walk starts.
pub proof fn lemma_digits_end_skip(s: Seq<char>, i: int, j: int)
    requires
        0 <= i <= j <= s.len(),
        forall|k: int| i <= k < j ==> is_digit(s[k]),
    ensures
        digits_end(s, i) == digits_end(s, j),
    decreases j - i,
{
    if i < j {
        lemma_digits_end_skip(s, i + 1, j);
    }
}

pub proof fn lemma_parse_opt_num_of_enc(s: Seq<char>, i: int, o: Option<nat>)
    requires
        placed(s, i, enc_opt_num(o)),
        o matches Option::Some(n) ==> n <= usize_max(),
    ensures
        parse_opt_num(s, i) == Some((o, i + enc_opt_num(o).len() as int)),
{
    match o {
        Option::None => {
            assert(s[i] == 'n') by {
                assert(s.subrange(i, i + 1)[0] == s[i]);
            }
        },
        Option::Some(n) => {
            lemma_placed_concat(s, i, seq!['s'], enc_num(n));
            assert(s[i] == 's') by {
                assert(s.subrange(i, i + 1)[0] == s[i]);
            }
            lemma_parse_num_field_of_enc(s, i + 1, n);
        },
    }
}

// ---------------------------------------------------------------------------
// Executable encoders.  Each appends one encoded field to a character
// buffer.
// ---------------------------------------------------------------------------

/// The character of one decimal digit.
fn digit_char(d: usize) -> (c: char)
    requires
        d < 10,
    ensures
        c == char_of_digit(d as nat),
{
    match d {
        0 => '0',
        1 => '1',
        2 => '2',
        3 => '3',
        4 => '4',
        5 => '5',
        6 => '6',
        7 => '7',
        8 => '8',
        _ => '9',
    }
}

/// The value of one decimal digit character.
fn digit_val(c: char) -> (d: usize)
    requires
        is_digit(c),
    ensures
        d == digit_of_char(c),
        d < 10,
{
    match c {
        '0' => 0,
        '1' => 1,
        '2' => 2,
        '3' => 3,
        '4' => 4,
        '5' => 5,
        '6' => 6,
        '7' => 7,
        '8' => 8,
        _ => 9,
    }
}

fn is_digit_exec(c: char) -> (r: bool)
    ensures
        r == is_digit(c),
{
    '0' <= c && c <= '9'
}

/// Append the decimal digits of a number.
pub fn push_digits(out: &mut Vec<char>, n: usize)
    ensures
        final(out)@ == old(out)@ + dig_seq(n as nat),
    decreases n,
{
    if n < 10 {
        out.push(digit_char(n));
        proof {
            assert(final(out)@ =~= old(out)@ + dig_seq(n as nat));
        }
    } else {
        push_digits(out, n / 10);
        out.push(digit_char(n % 10));
        proof {
            assert(final(out)@ =~= old(out)@ + dig_seq(n as nat));
        }
    }
}

/// Append an unsigned number field.
pub fn push_num_field(out: &mut Vec<char>, n: usize)
    ensures
        final(out)@ == old(out)@ + enc_num(n as nat),
{
    push_digits(out, n);
    out.push(';');
    proof {
        assert(final(out)@ =~= old(out)@ + enc_num(n as nat));
    }
}

/// Append a string field.
pub fn push_str_field(out: &mut Vec<char>, s: &str)
    ensures
        final(out)@ == old(out)@ + enc_str(s@),
        s@.len() <= usize_max(),
{
    let n = s.unicode_len();
    push_digits(out, n);
    out.push(':');
    let mut cs = crate::chars::string_to_chars(s);
    out.append(&mut cs);
    proof {
        assert(final(out)@ =~= old(out)@ + enc_str(s@));
    }
}

/// Append a boolean field.
pub fn push_bool_field(out: &mut Vec<char>, b: bool)
    ensures
        final(out)@ == old(out)@ + enc_bool(b),
{
    if b {
        out.push('1');
    } else {
        out.push('0');
    }
    proof {
        assert(final(out)@ =~= old(out)@ + enc_bool(b));
    }
}

/// Append a signed number field.
pub fn push_i32_field(out: &mut Vec<char>, v: i32)
    ensures
        final(out)@ == old(out)@ + enc_i32(v as int),
{
    if v >= 0 {
        out.push('+');
        push_digits(out, v as usize);
    } else {
        out.push('-');
        let wide: i64 = v as i64;
        let mag: usize = (-wide) as usize;
        assert(mag as nat == (-(v as int)) as nat);
        push_digits(out, mag);
    }
    out.push(';');
    proof {
        assert(final(out)@ =~= old(out)@ + enc_i32(v as int));
    }
}

/// Append an optional string field.
pub fn push_opt_str_field(out: &mut Vec<char>, s: &Option<String>)
    ensures
        final(out)@ == old(out)@ + enc_opt_str(
            match s {
                Option::Some(v) => Option::Some(v@),
                Option::None => Option::None,
            },
        ),
        s matches Option::Some(v) ==> v@.len() <= usize_max(),
{
    match s {
        Option::None => {
            out.push('n');
            proof {
                assert(final(out)@ =~= old(out)@ + seq!['n']);
            }
        },
        Option::Some(v) => {
            out.push('s');
            push_str_field(out, v.as_str());
            proof {
                assert(final(out)@ =~= old(out)@ + (seq!['s'] + enc_str(v@)));
            }
        },
    }
}

/// Append an optional unsigned number field.
pub fn push_opt_num_field(out: &mut Vec<char>, n: &Option<usize>)
    ensures
        final(out)@ == old(out)@ + enc_opt_num(
            match n {
                Option::Some(v) => Option::Some(*v as nat),
                Option::None => Option::None,
            },
        ),
{
    match n {
        Option::None => {
            out.push('n');
            proof {
                assert(final(out)@ =~= old(out)@ + seq!['n']);
            }
        },
        Option::Some(v) => {
            out.push('s');
            push_num_field(out, *v);
            proof {
                assert(final(out)@ =~= old(out)@ + (seq!['s'] + enc_num(*v as nat)));
            }
        },
    }
}

/// Appending an element appends its encoding.
pub proof fn lemma_enc_str_list_items_snoc(l: Seq<Seq<char>>, x: Seq<char>)
    ensures
        enc_str_list_items(l.push(x)) == enc_str_list_items(l) + enc_str(x),
    decreases l.len(),
{
    if l.len() == 0 {
        assert(l.push(x)[0] == x);
        assert(l.push(x).drop_first() =~= Seq::<Seq<char>>::empty());
        assert(enc_str_list_items(l.push(x).drop_first()) == Seq::<char>::empty());
        assert(enc_str_list_items(l.push(x)) == enc_str(x) + Seq::<char>::empty());
        assert(enc_str_list_items(l) == Seq::<char>::empty());
        assert(enc_str_list_items(l.push(x)) =~= enc_str_list_items(l) + enc_str(x));
    } else {
        assert(l.push(x).drop_first() =~= l.drop_first().push(x));
        lemma_enc_str_list_items_snoc(l.drop_first(), x);
        assert(l.push(x)[0] == l[0]);
        assert(enc_str_list_items(l.push(x)) == enc_str(l[0]) + enc_str_list_items(
            l.drop_first().push(x),
        ));
        assert(enc_str(l[0]) + (enc_str_list_items(l.drop_first()) + enc_str(x)) =~= (enc_str(l[0])
            + enc_str_list_items(l.drop_first())) + enc_str(x));
    }
}

/// Appending an element appends its encoding.
pub proof fn lemma_enc_i32_list_items_snoc(l: Seq<int>, x: int)
    ensures
        enc_i32_list_items(l.push(x)) == enc_i32_list_items(l) + enc_i32(x),
    decreases l.len(),
{
    if l.len() == 0 {
        assert(l.push(x)[0] == x);
        assert(l.push(x).drop_first() =~= Seq::<int>::empty());
        assert(enc_i32_list_items(l.push(x).drop_first()) == Seq::<char>::empty());
        assert(enc_i32_list_items(l.push(x)) == enc_i32(x) + Seq::<char>::empty());
        assert(enc_i32_list_items(l) == Seq::<char>::empty());
        assert(enc_i32_list_items(l.push(x)) =~= enc_i32_list_items(l) + enc_i32(x));
    } else {
        assert(l.push(x).drop_first() =~= l.drop_first().push(x));
        lemma_enc_i32_list_items_snoc(l.drop_first(), x);
        assert(l.push(x)[0] == l[0]);
        assert(enc_i32_list_items(l.push(x)) == enc_i32(l[0]) + enc_i32_list_items(
            l.drop_first().push(x),
        ));
        assert(enc_i32(l[0]) + (enc_i32_list_items(l.drop_first()) + enc_i32(x)) =~= (enc_i32(l[0])
            + enc_i32_list_items(l.drop_first())) + enc_i32(x));
    }
}

/// The integer values of a machine-word sequence.
pub open spec fn i32s(l: Seq<i32>) -> Seq<int> {
    l.map_values(|x: i32| x as int)
}

/// Append a list of string fields.
pub fn push_str_list_field(out: &mut Vec<char>, items: &Vec<String>)
    ensures
        final(out)@ == old(out)@ + enc_str_list(items.deep_view()),
        items@.len() <= usize_max(),
        forall|k: int|
            0 <= k < items@.len() ==> (#[trigger] items.deep_view()[k]).len() <= usize_max(),
{
    push_num_field(out, items.len());
    let mut k: usize = 0;
    while k < items.len()
        invariant
            k <= items@.len(),
            out@ == old(out)@ + enc_num(items@.len() as nat) + enc_str_list_items(
                items.deep_view().take(k as int),
            ),
            forall|j: int|
                0 <= j < k ==> (#[trigger] items.deep_view()[j]).len() <= usize_max(),
        decreases items@.len() - k,
    {
        let ghost before = out@;
        let item = &items[k];
        let n = item.as_str().unicode_len();
        push_str_field(out, item.as_str());
        proof {
            let dv = items.deep_view();
            assert(dv[k as int] == items@[k as int]@);
            assert(dv.take(k + 1) =~= dv.take(k as int).push(dv[k as int]));
            lemma_enc_str_list_items_snoc(dv.take(k as int), dv[k as int]);
            assert(out@ =~= old(out)@ + enc_num(items@.len() as nat) + enc_str_list_items(
                dv.take(k + 1),
            ));
        }
        k = k + 1;
    }
    proof {
        assert(items.deep_view().take(items@.len() as int) =~= items.deep_view());
        assert(final(out)@ =~= old(out)@ + enc_str_list(items.deep_view()));
    }
}

/// Append a list of signed number fields.
pub fn push_i32_list_field(out: &mut Vec<char>, items: &Vec<i32>)
    ensures
        final(out)@ == old(out)@ + enc_i32_list(i32s(items@)),
        items@.len() <= usize_max(),
{
    push_num_field(out, items.len());
    let mut k: usize = 0;
    while k < items.len()
        invariant
            k <= items@.len(),
            out@ == old(out)@ + enc_num(items@.len() as nat) + enc_i32_list_items(
                i32s(items@).take(k as int),
            ),
        decreases items@.len() - k,
    {
        push_i32_field(out, items[k]);
        proof {
            let dv = i32s(items@);
            assert(dv[k as int] == items@[k as int] as int);
            assert(dv.take(k + 1) =~= dv.take(k as int).push(dv[k as int]));
            lemma_enc_i32_list_items_snoc(dv.take(k as int), dv[k as int]);
            assert(out@ =~= old(out)@ + enc_num(items@.len() as nat) + enc_i32_list_items(
                dv.take(k + 1),
            ));
        }
        k = k + 1;
    }
    proof {
        assert(i32s(items@).take(items@.len() as int) =~= i32s(items@));
        assert(final(out)@ =~= old(out)@ + enc_i32_list(i32s(items@)));
    }
}

// ---------------------------------------------------------------------------
// Executable parsers.  Each walks a character buffer from a cursor and
// agrees exactly with its specification counterpart.
// ---------------------------------------------------------------------------

/// Parse a run of digits as an unsigned number.
pub fn parse_num_exec(cs: &Vec<char>, i: usize) -> (r: Option<(usize, usize)>)
    requires
        i <= cs@.len(),
    ensures
        match r {
            Option::Some((n, j)) => parse_num(cs@, i as int) == Some((n as nat, j as int)) && i
                < j <= cs@.len(),
            Option::None => parse_num(cs@, i as int) is None,
        },
{
    if i == cs.len() || !is_digit_exec(cs[i]) {
        return None;
    }
    let ghost s = cs@;
    let mut j: usize = i;
    let mut acc: usize = 0;
    while j < cs.len() && is_digit_exec(cs[j])
        invariant
            i <= j <= cs@.len(),
            cs@ == s,
            forall|k: int| i <= k < j ==> is_digit(s[k]),
            acc as nat == val_of(s.subrange(i as int, j as int)),
        decreases cs@.len() - j,
    {
        let d = digit_val(cs[j]);
        let step = match acc.checked_mul(10) {
            Option::Some(x) => x.checked_add(d),
            Option::None => Option::None,
        };
        proof {
            assert(s.subrange(i as int, j + 1) =~= s.subrange(i as int, j as int).push(s[j as int]));
            lemma_val_of_push(s.subrange(i as int, j as int), s[j as int]);
        }
        match step {
            Option::Some(next) => {
                acc = next;
                j = j + 1;
            },
            Option::None => {
                proof {
                    lemma_digits_end(s, j + 1);
                    lemma_digits_end_skip(s, i as int, j + 1);
                    lemma_val_of_mono(s, i as int, j + 1, digits_end(s, i as int));
                }
                return None;
            },
        }
    }
    proof {
        lemma_digits_end_skip(s, i as int, j as int);
        assert(digits_end(s, j as int) == j);
    }
    Some((acc, j))
}

/// Step over one expected character.
pub fn parse_lit_exec(cs: &Vec<char>, i: usize, c: char) -> (r: Option<usize>)
    requires
        i <= cs@.len(),
    ensures
        match r {
            Option::Some(j) => parse_lit(cs@, i as int, c) == Some(j as int) && i < j <= cs@.len(),
            Option::None => parse_lit(cs@, i as int, c) is None,
        },
{
    if i < cs.len() && cs[i] == c {
        Some(i + 1)
    } else {
        None
    }
}

/// Parse an unsigned number field.
pub fn parse_num_field_exec(cs: &Vec<char>, i: usize) -> (r: Option<(usize, usize)>)
    requires
        i <= cs@.len(),
    ensures
        match r {
            Option::Some((n, j)) => parse_num_field(cs@, i as int) == Some((n as nat, j as int))
                && i < j <= cs@.len(),
            Option::None => parse_num_field(cs@, i as int) is None,
        },
{
    match parse_num_exec(cs, i) {
        Option::Some((n, j)) => match parse_lit_exec(cs, j, ';') {
            Option::Some(j2) => Some((n, j2)),
            Option::None => None,
        },
        Option::None => None,
    }
}

/// Parse a string field, yielding its characters.
pub fn parse_str_exec(cs: &Vec<char>, i: usize) -> (r: Option<(Vec<char>, usize)>)
    requires
        i <= cs@.len(),
    ensures
        match r {
            Option::Some((v, j)) => parse_str(cs@, i as int) == Some((v@, j as int)) && i < j
                <= cs@.len(),
            Option::None => parse_str(cs@, i as int) is None,
        },
{
    let (n, j) = match parse_num_exec(cs, i) {
        Option::Some(x) => x,
        Option::None => {
            return None;
        },
    };
    let j2 = match parse_lit_exec(cs, j, ':') {
        Option::Some(x) => x,
        Option::None => {
            return None;
        },
    };
    if n > cs.len() - j2 {
        return None;
    }
    let end: usize = j2 + n;
    let mut content: Vec<char> = Vec::new();
    let mut pos: usize = j2;
    while pos < end
        invariant
            j2 <= pos <= end,
            end <= cs@.len(),
            content@ == cs@.subrange(j2 as int, pos as int),
        decreases end - pos,
    {
        content.push(cs[pos]);
        pos = pos + 1;
        proof {
            assert(content@ =~= cs@.subrange(j2 as int, pos as int));
        }
    }
    Some((content, end))
}

/// Parse a boolean field.
pub fn parse_bool_exec(cs: &Vec<char>, i: usize) -> (r: Option<(bool, usize)>)
    requires
        i <= cs@.len(),
    ensures
        match r {
            Option::Some((b, j)) => parse_bool(cs@, i as int) == Some((b, j as int)) && i < j
                <= cs@.len(),
            Option::None => parse_bool(cs@, i as int) is None,
        },
{
    if i < cs.len() && cs[i] == '0' {
        Some((false, i + 1))
    } else if i < cs.len() && cs[i] == '1' {
        Some((true, i + 1))
    } else {
        None
    }
}

/// Parse a signed number field.
pub fn parse_i32_exec(cs: &Vec<char>, i: usize) -> (r: Option<(i32, usize)>)
    requires
        i <= cs@.len(),
    ensures
        match r {
            Option::Some((v, j)) => parse_i32(cs@, i as int) == Some((v as int, j as int)) && i
                < j <= cs@.len(),
            Option::None => parse_i32(cs@, i as int) is None,
        },
{
    if i == cs.len() {
        return None;
    }
    let sign = cs[i];
    if sign != '+' && sign != '-' {
        return None;
    }
    let (n, j) = match parse_num_exec(cs, i + 1) {
        Option::Some(x) => x,
        Option::None => {
            return None;
        },
    };
    if sign == '-' {
        if n > 0x8000_0000usize {
            return None;
        }
        let wide: i64 = -(n as i64);
        let v: i32 = wide as i32;
        match parse_lit_exec(cs, j, ';') {
            Option::Some(j2) => Some((v, j2)),
            Option::None => None,
        }
    } else {
        if n > 0x7FFF_FFFFusize {
            return None;
        }
        let v: i32 = n as i32;
        match parse_lit_exec(cs, j, ';') {
            Option::Some(j2) => Some((v, j2)),
            Option::None => None,
        }
    }
}

/// Parse a list of string fields.
pub fn parse_str_list_exec(cs: &Vec<char>, i: usize) -> (r: Option<(Vec<String>, usize)>)
    requires
        i <= cs@.len(),
    ensures
        match r {
            Option::Some((l, j)) => parse_str_list(cs@, i as int) == Some((l.deep_view(), j as int))
                && i < j <= cs@.len(),
            Option::None => parse_str_list(cs@, i as int) is None,
        },
{
    let (count, start) = match parse_num_field_exec(cs, i) {
        Option::Some(x) => x,
        Option::None => {
            return None;
        },
    };
    let mut out: Vec<String> = Vec::new();
    let mut cur: usize = start;
    let mut k: usize = 0;
    while k < count
        invariant
            k <= count,
            i < cur <= cs@.len(),
            parse_str_list(cs@, i as int) == (match parse_str_list_items(
                cs@,
                cur as int,
                (count - k) as nat,
            ) {
                Option::Some((l2, jf)) => Option::Some((out.deep_view() + l2, jf)),
                Option::None => Option::None::<(Seq<Seq<char>>, int)>,
            }),
        decreases count - k,
    {
        match parse_str_exec(cs, cur) {
            Option::Some((v, j)) => {
                let ghost old_dv = out.deep_view();
                out.push(crate::chars::chars_to_string(&v));
                cur = j;
                k = k + 1;
                proof {
                    assert(out.deep_view() =~= old_dv.push(v@));
                    assert forall|l2: Seq<Seq<char>>|
                        true implies old_dv + (seq![v@] + l2) =~= old_dv.push(v@) + l2 by {}
                }
            },
            Option::None => {
                return None;
            },
        }
    }
    proof {
        assert(out.deep_view() + Seq::<Seq<char>>::empty() =~= out.deep_view());
    }
    Some((out, cur))
}

/// Parse a list of signed number fields.
pub fn parse_i32_list_exec(cs: &Vec<char>, i: usize) -> (r: Option<(Vec<i32>, usize)>)
    requires
        i <= cs@.len(),
    ensures
        match r {
            Option::Some((l, j)) => parse_i32_list(cs@, i as int) == Some((i32s(l@), j as int))
                && i < j <= cs@.len(),
            Option::None => parse_i32_list(cs@, i as int) is None,
        },
{
    let (count, start) = match parse_num_field_exec(cs, i) {
        Option::Some(x) => x,
        Option::None => {
            return None;
        },
    };
    let mut out: Vec<i32> = Vec::new();
    let mut cur: usize = start;
    let mut k: usize = 0;
    while k < count
        invariant
            k <= count,
            i < cur <= cs@.len(),
            parse_i32_list(cs@, i as int) == (match parse_i32_list_items(
                cs@,
                cur as int,
                (count - k) as nat,
            ) {
                Option::Some((l2, jf)) => Option::Some((i32s(out@) + l2, jf)),
                Option::None => Option::None::<(Seq<int>, int)>,
            }),
        decreases count - k,
    {
        match parse_i32_exec(cs, cur) {
            Option::Some((v, j)) => {
                let ghost old_dv = i32s(out@);
                out.push(v);
                cur = j;
                k = k + 1;
                proof {
                    assert(i32s(out@) =~= old_dv.push(v as int));
                    assert forall|l2: Seq<int>|
                        true implies old_dv + (seq![v as int] + l2) =~= old_dv.push(v as int)
                        + l2 by {}
                }
            },
            Option::None => {
                return None;
            },
        }
    }
    proof {
        assert(i32s(out@) + Seq::<int>::empty() =~= i32s(out@));
    }
    Some((out, cur))
}

/// Parse an optional string field.
pub fn parse_opt_str_exec(cs: &Vec<char>, i: usize) -> (r: Option<(Option<Vec<char>>, usize)>)
    requires
        i <= cs@.len(),
    ensures
        match r {
            Option::Some((o, j)) => ({
                let ov = match o {
                    Option::Some(v) => Option::Some(v@),
                    Option::None => Option::None,
                };
                parse_opt_str(cs@, i as int) == Some((ov, j as int)) && i < j <= cs@.len()
            }),
            Option::None => parse_opt_str(cs@, i as int) is None,
        },
{
    if i < cs.len() && cs[i] == 'n' {
        Some((None, i + 1))
    } else if i < cs.len() && cs[i] == 's' {
        match parse_str_exec(cs, i + 1) {
            Option::Some((v, j)) => Some((Some(v), j)),
            Option::None => None,
        }
    } else {
        None
    }
}

/// Parse an optional unsigned number field.
pub fn parse_opt_num_exec(cs: &Vec<char>, i: usize) -> (r: Option<(Option<usize>, usize)>)
    requires
        i <= cs@.len(),
    ensures
        match r {
            Option::Some((o, j)) => ({
                let ov = match o {
                    Option::Some(v) => Option::Some(v as nat),
                    Option::None => Option::None,
                };
                parse_opt_num(cs@, i as int) == Some((ov, j as int)) && i < j <= cs@.len()
            }),
            Option::None => parse_opt_num(cs@, i as int) is None,
        },
{
    if i < cs.len() && cs[i] == 'n' {
        Some((None, i + 1))
    } else if i < cs.len() && cs[i] == 's' {
        match parse_num_field_exec(cs, i + 1) {
            Option::Some((n, j)) => Some((Some(n), j)),
            Option::None => None,
        }
    } else {
        None
    }
}

} // verus!
