use vstd::prelude::*;

verus! {

/// The canonical identity of a column value: text, unsigned or signed
/// integer, or boolean.  Dates are stored as signed day counts.
#[derive(Clone, Debug, PartialEq, Eq, Hash, PartialOrd, Ord)]
pub enum ScalarValue {
    Str(String),
    U32(u32),
    I32(i32),
    Bool(bool),
}

/// The mathematical value of a `ScalarValue`.
pub enum ScalarModel {
    Str(Seq<char>),
    U32(u32),
    I32(i32),
    Bool(bool),
}

impl View for ScalarValue {
    type V = ScalarModel;

    open spec fn view(&self) -> ScalarModel {
        match self {
            ScalarValue::Str(s) => ScalarModel::Str(s@),
            ScalarValue::U32(n) => ScalarModel::U32(*n),
            ScalarValue::I32(n) => ScalarModel::I32(*n),
            ScalarValue::Bool(b) => ScalarModel::Bool(*b),
        }
    }
}

/// Position of a variant in the order of values.
pub open spec fn variant_rank(m: ScalarModel) -> int {
    match m {
        ScalarModel::Str(_) => 0,
        ScalarModel::U32(_) => 1,
        ScalarModel::I32(_) => 2,
        ScalarModel::Bool(_) => 3,
    }
}

/// Lexicographic order on character sequences, by code point.
pub open spec fn text_le(a: Seq<char>, b: Seq<char>) -> bool
    decreases a.len(),
{
    if a.len() == 0 {
        true
    } else if b.len() == 0 {
        false
    } else if (a[0] as u32) == (b[0] as u32) {
        text_le(a.skip(1), b.skip(1))
    } else {
        (a[0] as u32) < (b[0] as u32)
    }
}

/// Total order on values: by variant first, then by payload.
pub open spec fn scalar_le(a: ScalarModel, b: ScalarModel) -> bool {
    if variant_rank(a) != variant_rank(b) {
        variant_rank(a) < variant_rank(b)
    } else {
        match (a, b) {
            (ScalarModel::Str(x), ScalarModel::Str(y)) => text_le(x, y),
            (ScalarModel::U32(x), ScalarModel::U32(y)) => x <= y,
            (ScalarModel::I32(x), ScalarModel::I32(y)) => x <= y,
            (ScalarModel::Bool(x), ScalarModel::Bool(y)) => !x || y,
            _ => true,
        }
    }
}

pub proof fn lemma_text_le_total(a: Seq<char>, b: Seq<char>)
    ensures
        text_le(a, b) || text_le(b, a),
    decreases a.len(),
{
    if a.len() > 0 && b.len() > 0 && (a[0] as u32) == (b[0] as u32) {
        lemma_text_le_total(a.skip(1), b.skip(1));
    }
}

pub proof fn lemma_text_le_reflexive(a: Seq<char>)
    ensures
        text_le(a, a),
    decreases a.len(),
{
    if a.len() > 0 {
        lemma_text_le_reflexive(a.skip(1));
    }
}

pub proof fn lemma_scalar_le_reflexive(a: ScalarModel)
    ensures
        scalar_le(a, a),
{
    if let ScalarModel::Str(x) = a {
        lemma_text_le_reflexive(x);
    }
}

pub proof fn lemma_text_le_transitive(a: Seq<char>, b: Seq<char>, c: Seq<char>)
    requires
        text_le(a, b),
        text_le(b, c),
    ensures
        text_le(a, c),
    decreases a.len(),
{
    if a.len() > 0 && b.len() > 0 && c.len() > 0 && (a[0] as u32) == (b[0] as u32)
        && (b[0] as u32) == (c[0] as u32) {
        lemma_text_le_transitive(a.skip(1), b.skip(1), c.skip(1));
    }
}

pub proof fn lemma_scalar_le_total(a: ScalarModel, b: ScalarModel)
    ensures
        scalar_le(a, b) || scalar_le(b, a),
{
    if let (ScalarModel::Str(x), ScalarModel::Str(y)) = (a, b) {
        lemma_text_le_total(x, y);
    }
}

pub proof fn lemma_scalar_le_transitive(a: ScalarModel, b: ScalarModel, c: ScalarModel)
    requires
        scalar_le(a, b),
        scalar_le(b, c),
    ensures
        scalar_le(a, c),
{
    if let (ScalarModel::Str(x), ScalarModel::Str(y), ScalarModel::Str(z)) = (a, b, c) {
        lemma_text_le_transitive(x, y, z);
    }
}

/// Characters of `s` from position `i` on agree with those of `s@.skip(i)`.
proof fn lemma_skip_step(s: Seq<char>, i: int)
    requires
        0 <= i < s.len(),
    ensures
        s.skip(i)[0] == s[i],
        s.skip(i).skip(1) =~= s.skip(i + 1),
{
}

/// Whether two strings are equal, character by character.
pub fn text_equal(a: &str, b: &str) -> (r: bool)
    ensures
        r == (a@ == b@),
{
    let n = a.unicode_len();
    let m = b.unicode_len();
    if n != m {
        return false;
    }
    let mut i: usize = 0;
    while i < n
        invariant
            n == a@.len(),
            m == b@.len(),
            n == m,
            i <= n,
            forall|j: int| 0 <= j < i ==> a@[j] == b@[j],
        decreases n - i,
    {
        if a.get_char(i) != b.get_char(i) {
            return false;
        }
        i = i + 1;
    }
    assert(a@ =~= b@);
    true
}

/// Lexicographic comparison of two strings by code point.
fn text_less_or_equal(a: &str, b: &str) -> (r: bool)
    ensures
        r == text_le(a@, b@),
{
    let n = a.unicode_len();
    let m = b.unicode_len();
    let mut i: usize = 0;
    assert(a@.skip(0) =~= a@);
    assert(b@.skip(0) =~= b@);
    while i < n && i < m
        invariant
            n == a@.len(),
            m == b@.len(),
            i <= n,
            i <= m,
            text_le(a@, b@) == text_le(a@.skip(i as int), b@.skip(i as int)),
        decreases n - i,
    {
        let x = a.get_char(i);
        let y = b.get_char(i);
        proof {
            lemma_skip_step(a@, i as int);
            lemma_skip_step(b@, i as int);
        }
        if (x as u32) != (y as u32) {
            return (x as u32) < (y as u32);
        }
        i = i + 1;
    }
    i == n
}

impl ScalarValue {
    /// A copy of this value.
    pub fn duplicate(&self) -> (r: ScalarValue)
        ensures
            r@ == self@,
    {
        match self {
            ScalarValue::Str(s) => ScalarValue::Str(s.clone()),
            ScalarValue::U32(n) => ScalarValue::U32(*n),
            ScalarValue::I32(n) => ScalarValue::I32(*n),
            ScalarValue::Bool(b) => ScalarValue::Bool(*b),
        }
    }

    /// Structural equality: same variant, same payload.
    pub fn same_as(&self, other: &ScalarValue) -> (r: bool)
        ensures
            r == (self@ == other@),
    {
        match (self, other) {
            (ScalarValue::Str(a), ScalarValue::Str(b)) => text_equal(a.as_str(), b.as_str()),
            (ScalarValue::U32(a), ScalarValue::U32(b)) => *a == *b,
            (ScalarValue::I32(a), ScalarValue::I32(b)) => *a == *b,
            (ScalarValue::Bool(a), ScalarValue::Bool(b)) => *a == *b,
            _ => false,
        }
    }

    /// Whether this value comes no later than `other` in the order of values.
    pub fn less_or_equal(&self, other: &ScalarValue) -> (r: bool)
        ensures
            r == scalar_le(self@, other@),
    {
        match (self, other) {
            (ScalarValue::Str(a), ScalarValue::Str(b)) => text_less_or_equal(a.as_str(), b.as_str()),
            (ScalarValue::U32(a), ScalarValue::U32(b)) => *a <= *b,
            (ScalarValue::I32(a), ScalarValue::I32(b)) => *a <= *b,
            (ScalarValue::Bool(a), ScalarValue::Bool(b)) => !*a || *b,
            (ScalarValue::Str(_), _) => true,
            (ScalarValue::U32(_), ScalarValue::Str(_)) => false,
            (ScalarValue::U32(_), _) => true,
            (ScalarValue::I32(_), ScalarValue::Bool(_)) => true,
            (ScalarValue::I32(_), _) => false,
            (ScalarValue::Bool(_), _) => false,
        }
    }
}

/// The character of the decimal digit `d`.
pub open spec fn digit_char(d: nat) -> char {
    (d + 48) as char
}

/// The decimal notation of `n`, without leading zeros.
pub open spec fn decimal_text(n: nat) -> Seq<char>
    decreases n,
{
    if n < 10 {
        seq![digit_char(n)]
    } else {
        decimal_text(n / 10).push(digit_char(n % 10))
    }
}

/// The canonical text of a value: the text itself, a number in decimal
/// (with `-` before a negative one), or `true` / `false`.
pub open spec fn canonical_text(m: ScalarModel) -> Seq<char> {
    match m {
        ScalarModel::Str(s) => s,
        ScalarModel::U32(n) => decimal_text(n as nat),
        ScalarModel::I32(n) => if n < 0 {
            seq!['-'] + decimal_text((-n) as nat)
        } else {
            decimal_text(n as nat)
        },
        ScalarModel::Bool(b) => if b {
            seq!['t', 'r', 'u', 'e']
        } else {
            seq!['f', 'a', 'l', 's', 'e']
        },
    }
}

fn digit_str(d: u64) -> (r: &'static str)
    requires
        d < 10,
    ensures
        r@ == seq![digit_char(d as nat)],
{
    proof {
        reveal_strlit("0");
        reveal_strlit("1");
        reveal_strlit("2");
        reveal_strlit("3");
        reveal_strlit("4");
        reveal_strlit("5");
        reveal_strlit("6");
        reveal_strlit("7");
        reveal_strlit("8");
        reveal_strlit("9");
    }
    let r = match d {
        0 => "0",
        1 => "1",
        2 => "2",
        3 => "3",
        4 => "4",
        5 => "5",
        6 => "6",
        7 => "7",
        8 => "8",
        _ => "9",
    };
    assert(r@ =~= seq![digit_char(d as nat)]);
    r
}

/// Appends the decimal notation of `n` to `s`.
fn append_decimal(s: &mut String, n: u64)
    ensures
        final(s)@ == old(s)@ + decimal_text(n as nat),
    decreases n,
{
    if n >= 10 {
        append_decimal(s, n / 10);
    }
    s.append(digit_str(n % 10));
    proof {
        if n >= 10 {
            assert(decimal_text(n as nat) == decimal_text((n / 10) as nat).push(digit_char((n % 10) as nat)));
        }
    }
    assert(final(s)@ =~= old(s)@ + decimal_text(n as nat));
}

impl ScalarValue {
    /// The canonical text of this value, which a column displays unless
    /// told otherwise.
    pub fn to_text(&self) -> (r: String)
        ensures
            r@ == canonical_text(self@),
    {
        match self {
            ScalarValue::Str(s) => s.clone(),
            ScalarValue::U32(n) => {
                let mut r = String::new();
                append_decimal(&mut r, *n as u64);
                assert(r@ =~= canonical_text(self@));
                r
            },
            ScalarValue::I32(n) => {
                let mut r = String::new();
                if *n < 0 {
                    r.append("-");
                    proof {
                        reveal_strlit("-");
                    }
                    append_decimal(&mut r, (0 - (*n as i64)) as u64);
                } else {
                    append_decimal(&mut r, *n as u64);
                }
                assert(r@ =~= canonical_text(self@));
                r
            },
            ScalarValue::Bool(b) => {
                proof {
                    reveal_strlit("true");
                    reveal_strlit("false");
                }
                let r = if *b { "true".to_owned() } else { "false".to_owned() };
                assert(r@ =~= canonical_text(self@));
                r
            },
        }
    }
}

/// One row's projection onto one column: the value that identifies it and
/// the text that displays it.
pub struct Cell {
    pub value: ScalarValue,
    pub display: String,
}

impl Cell {
    /// A cell displayed by the canonical text of its value.
    pub fn of_value(value: ScalarValue) -> (r: Cell)
        ensures
            r.value@ == value@,
            r.display@ == canonical_text(value@),
    {
        let display = value.to_text();
        Cell { value, display }
    }

    pub fn new(value: ScalarValue, display: &str) -> (r: Cell)
        ensures
            r.value@ == value@,
            r.display@ == display@,
    {
        Cell { value, display: display.to_owned() }
    }
}

} // verus!
