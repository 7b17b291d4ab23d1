use vstd::prelude::*;

use crate::date::{parse_date_days, parsed_date_days};
use crate::number::{all_digits, parse_i32, parse_i32_spec, parse_u32, parse_u32_spec};
use crate::value::text_equal;
use crate::text::{
    chars_of, contains_text, find_range_sep, is_prefix, lemma_range_sep_bounds, occurs_in,
    range_sep_from, split_commas, split_on, starts_with,
};

verus! {

/// The grammar that a column's search patterns follow.
pub enum KindModel {
    /// Comma-separated prefixes, any of which may match.
    Text,
    /// Comma-separated conditions on a `u32`, all of which must hold.
    Unsigned,
    /// Comma-separated conditions on an `i32`, all of which must hold.
    Signed,
    /// Comma-separated conditions on a date written in the given format.
    Date(Seq<char>),
    /// A substring of the displayed text.
    Boolean,
    /// Comma-separated texts, one of which must equal the displayed text.
    Member,
}

/// A relational operator of the numeric grammar.
pub enum Relation {
    AtMost,
    AtLeast,
    Below,
    Above,
}

pub open spec fn relation_holds(rel: Relation, v: int, n: int) -> bool {
    match rel {
        Relation::AtMost => v <= n,
        Relation::AtLeast => v >= n,
        Relation::Below => v < n,
        Relation::Above => v > n,
    }
}

/// The number (or day count) that `s` writes under the grammar `k`.
pub open spec fn operand_value(k: KindModel, s: Seq<char>) -> Option<int> {
    match k {
        KindModel::Unsigned => match parse_u32_spec(s) {
            Some(v) => Some(v as int),
            None => None,
        },
        KindModel::Signed => match parse_i32_spec(s) {
            Some(v) => Some(v as int),
            None => None,
        },
        KindModel::Date(fmt) => match parsed_date_days(s, fmt) {
            Some(v) => Some(v as int),
            None => None,
        },
        _ => None,
    }
}

/// `target` and `operand` both parse, and stand in relation `rel`.
pub open spec fn compare_holds(k: KindModel, rel: Relation, target: Seq<char>, operand: Seq<char>) -> bool {
    match (operand_value(k, target), operand_value(k, operand)) {
        (Some(v), Some(n)) => relation_holds(rel, v, n),
        _ => false,
    }
}

/// `target`, `low` and `high` all parse, and `low <= target <= high`.
pub open spec fn range_holds(k: KindModel, target: Seq<char>, low: Seq<char>, high: Seq<char>) -> bool {
    match (operand_value(k, low), operand_value(k, high), operand_value(k, target)) {
        (Some(a), Some(b), Some(v)) => a <= v && v <= b,
        _ => false,
    }
}

/// `s` has the shape of an operand of a comparison under grammar `k`: on
/// integer columns a decimal numeral (with a leading `-` on signed ones);
/// on date columns any text, since a date that does not parse fails the
/// comparison.
pub open spec fn is_operand(k: KindModel, s: Seq<char>) -> bool {
    match k {
        KindModel::Unsigned => s.len() > 0 && all_digits(s),
        KindModel::Signed => if s.len() > 0 && s[0] == '-' {
            s.len() > 1 && all_digits(s.skip(1))
        } else {
            s.len() > 0 && all_digits(s)
        },
        _ => true,
    }
}

/// What one comma-free sub-pattern `p` of a numeric or date grammar asks of
/// `target`: an inclusive range `A><B`, a comparison `<=N`, `>=N`, `<N` or
/// `>N` whose operand `N` has the shape of one, or else that `target`
/// starts with `p`.
pub open spec fn condition_holds(k: KindModel, p: Seq<char>, target: Seq<char>) -> bool {
    let r = range_sep_from(p, 0);
    if r >= 0 {
        range_holds(k, target, p.take(r), p.skip(r + 2))
    } else if p.len() >= 2 && p[0] == '<' && p[1] == '=' && is_operand(k, p.skip(2)) {
        compare_holds(k, Relation::AtMost, target, p.skip(2))
    } else if p.len() >= 2 && p[0] == '>' && p[1] == '=' && is_operand(k, p.skip(2)) {
        compare_holds(k, Relation::AtLeast, target, p.skip(2))
    } else if p.len() >= 1 && p[0] == '<' && is_operand(k, p.skip(1)) {
        compare_holds(k, Relation::Below, target, p.skip(1))
    } else if p.len() >= 1 && p[0] == '>' && is_operand(k, p.skip(1)) {
        compare_holds(k, Relation::Above, target, p.skip(1))
    } else {
        is_prefix(p, target)
    }
}

/// Whether `pattern` matches the displayed text `target` under grammar `k`.
pub open spec fn pattern_matches(k: KindModel, pattern: Seq<char>, target: Seq<char>) -> bool {
    match k {
        KindModel::Text => exists|j: int|
            0 <= j < split_on(pattern, ',').len() && is_prefix(
                #[trigger] split_on(pattern, ',')[j],
                target,
            ),
        KindModel::Boolean => occurs_in(pattern, target),
        KindModel::Member => exists|j: int|
            0 <= j < split_on(pattern, ',').len() && #[trigger] split_on(pattern, ',')[j] == target,
        _ => forall|j: int|
            0 <= j < split_on(pattern, ',').len() ==> condition_holds(
                k,
                #[trigger] split_on(pattern, ',')[j],
                target,
            ),
    }
}

/// The numeric grammars, with the date format where there is one.
enum NumberSyntax<'a> {
    Unsigned,
    Signed,
    Date(&'a str),
}

impl<'a> View for NumberSyntax<'a> {
    type V = KindModel;

    closed spec fn view(&self) -> KindModel {
        match self {
            NumberSyntax::Unsigned => KindModel::Unsigned,
            NumberSyntax::Signed => KindModel::Signed,
            NumberSyntax::Date(f) => KindModel::Date(f@),
        }
    }
}

fn operand(g: &NumberSyntax, s: &str) -> (r: Option<i64>)
    ensures
        match r {
            Some(v) => operand_value(g@, s@) == Some(v as int),
            None => operand_value(g@, s@) == None::<int>,
        },
{
    match g {
        NumberSyntax::Unsigned => match parse_u32(s) {
            Some(v) => Some(v as i64),
            None => None,
        },
        NumberSyntax::Signed => match parse_i32(s) {
            Some(v) => Some(v as i64),
            None => None,
        },
        NumberSyntax::Date(fmt) => match parse_date_days(s, fmt) {
            Some(v) => Some(v as i64),
            None => None,
        },
    }
}

/// Whether `s[from..]` is a non-empty run of decimal digits.
fn digits_from(s: &Vec<char>, from: usize) -> (r: bool)
    requires
        from <= s@.len(),
    ensures
        r == (s@.skip(from as int).len() > 0 && all_digits(s@.skip(from as int))),
{
    if from == s.len() {
        return false;
    }
    let mut i: usize = from;
    while i < s.len()
        invariant
            from <= i <= s@.len(),
            forall|j: int| from <= j < i ==> '0' <= s@[j] && s@[j] <= '9',
        decreases s@.len() - i,
    {
        if !('0' <= s[i] && s[i] <= '9') {
            assert(s@.skip(from as int)[i - from] == s@[i as int]);
            return false;
        }
        i = i + 1;
    }
    assert forall|j: int| 0 <= j < s@.skip(from as int).len() implies crate::number::is_digit(
        #[trigger] s@.skip(from as int)[j],
    ) by {
        assert(s@.skip(from as int)[j] == s@[from + j]);
    }
    true
}

/// Whether `s`, the text after an operator, has the shape of an operand.
fn operand_shape(g: &NumberSyntax, s: &str) -> (r: bool)
    ensures
        r == is_operand(g@, s@),
{
    match g {
        NumberSyntax::Unsigned => {
            let cs = chars_of(s);
            assert(cs@.skip(0) =~= cs@);
            digits_from(&cs, 0)
        },
        NumberSyntax::Signed => {
            let cs = chars_of(s);
            assert(cs@.skip(0) =~= cs@);
            if cs.len() > 0 && cs[0] == '-' {
                digits_from(&cs, 1)
            } else {
                digits_from(&cs, 0)
            }
        },
        NumberSyntax::Date(_) => true,
    }
}

fn compare(g: &NumberSyntax, rel: Relation, target: &str, operand_text: &str) -> (r: bool)
    ensures
        r == compare_holds(g@, rel, target@, operand_text@),
{
    match (operand(g, target), operand(g, operand_text)) {
        (Some(v), Some(n)) => match rel {
            Relation::AtMost => v <= n,
            Relation::AtLeast => v >= n,
            Relation::Below => v < n,
            Relation::Above => v > n,
        },
        _ => false,
    }
}

fn condition(g: &NumberSyntax, p: &str, target: &str) -> (r: bool)
    ensures
        r == condition_holds(g@, p@, target@),
{
    let cs = chars_of(p);
    let n = cs.len();
    match find_range_sep(&cs) {
        Some(at) => {
            proof {
                lemma_range_sep_bounds(p@, 0);
            }
            let low = p.substring_char(0, at);
            let high = p.substring_char(at + 2, n);
            assert(low@ =~= p@.take(at as int));
            assert(high@ =~= p@.skip(at + 2));
            match (operand(g, low), operand(g, high), operand(g, target)) {
                (Some(a), Some(b), Some(v)) => a <= v && v <= b,
                _ => false,
            }
        },
        None => {
            if n >= 2 && cs[0] == '<' && cs[1] == '=' {
                let rest = p.substring_char(2, n);
                assert(rest@ =~= p@.skip(2));
                if operand_shape(g, rest) {
                    return compare(g, Relation::AtMost, target, rest);
                }
            }
            if n >= 2 && cs[0] == '>' && cs[1] == '=' {
                let rest = p.substring_char(2, n);
                assert(rest@ =~= p@.skip(2));
                if operand_shape(g, rest) {
                    return compare(g, Relation::AtLeast, target, rest);
                }
            }
            if n >= 1 && cs[0] == '<' {
                let rest = p.substring_char(1, n);
                assert(rest@ =~= p@.skip(1));
                if operand_shape(g, rest) {
                    return compare(g, Relation::Below, target, rest);
                }
            }
            if n >= 1 && cs[0] == '>' {
                let rest = p.substring_char(1, n);
                assert(rest@ =~= p@.skip(1));
                if operand_shape(g, rest) {
                    return compare(g, Relation::Above, target, rest);
                }
            }
            starts_with(target, p)
        },
    }
}

/// Every comma-separated condition of `pattern` holds of `target`.
fn all_conditions(g: &NumberSyntax, pattern: &str, target: &str) -> (r: bool)
    requires
        !(g@ is Text),
        !(g@ is Boolean),
        !(g@ is Member),
    ensures
        r == pattern_matches(g@, pattern@, target@),
{
    let pieces = split_commas(pattern);
    let ghost parts = split_on(pattern@, ',');
    let mut i: usize = 0;
    while i < pieces.len()
        invariant
            pieces@.len() == parts.len(),
            forall|k: int| 0 <= k < pieces@.len() ==> pieces@[k]@ == parts[k],
            parts == split_on(pattern@, ','),
            i <= pieces@.len(),
            forall|k: int| 0 <= k < i ==> condition_holds(g@, #[trigger] parts[k], target@),
        decreases pieces@.len() - i,
    {
        if !condition(g, pieces[i].as_str(), target) {
            assert(!condition_holds(g@, parts[i as int], target@));
            return false;
        }
        i = i + 1;
    }
    true
}

/// Some comma-separated piece of `pattern` is a prefix of `target`.
fn any_prefix(pattern: &str, target: &str) -> (r: bool)
    ensures
        r == pattern_matches(KindModel::Text, pattern@, target@),
{
    let pieces = split_commas(pattern);
    let ghost parts = split_on(pattern@, ',');
    let mut i: usize = 0;
    while i < pieces.len()
        invariant
            pieces@.len() == parts.len(),
            forall|k: int| 0 <= k < pieces@.len() ==> pieces@[k]@ == parts[k],
            parts == split_on(pattern@, ','),
            i <= pieces@.len(),
            forall|k: int| 0 <= k < i ==> !is_prefix(#[trigger] parts[k], target@),
        decreases pieces@.len() - i,
    {
        if starts_with(target, pieces[i].as_str()) {
            assert(is_prefix(parts[i as int], target@));
            return true;
        }
        i = i + 1;
    }
    false
}

/// What every kind of column offers: an id, and a grammar in which search
/// patterns are matched against displayed text.
pub trait ColumnFilter {
    spec fn grammar(&self) -> KindModel;

    spec fn id_view(&self) -> Seq<char>;

    /// The column's id.
    fn id(&self) -> (r: &str)
        ensures
            r@ == self.id_view(),
    ;

    /// Whether `pattern` matches the displayed text `target` in this
    /// column's grammar.
    fn search_pattern(&self, pattern: &str, target: &str) -> (r: bool)
        ensures
            r == pattern_matches(self.grammar(), pattern@, target@),
    ;
}

/// Some comma-separated piece of `pattern` equals `target`.
fn any_equal(pattern: &str, target: &str) -> (r: bool)
    ensures
        r == pattern_matches(KindModel::Member, pattern@, target@),
{
    let pieces = split_commas(pattern);
    let ghost parts = split_on(pattern@, ',');
    let mut i: usize = 0;
    while i < pieces.len()
        invariant
            pieces@.len() == parts.len(),
            forall|k: int| 0 <= k < pieces@.len() ==> pieces@[k]@ == parts[k],
            parts == split_on(pattern@, ','),
            i <= pieces@.len(),
            forall|k: int| 0 <= k < i ==> #[trigger] parts[k] != target@,
        decreases pieces@.len() - i,
    {
        if text_equal(pieces[i].as_str(), target) {
            assert(parts[i as int] == target@);
            return true;
        }
        i = i + 1;
    }
    false
}

/// A text column: a pattern is a comma-separated list of prefixes, and
/// matches when any of them starts the displayed text.
pub struct StringColumnFilter {
    pub id: String,
}

impl StringColumnFilter {
    pub fn new(id: &str) -> (r: StringColumnFilter)
        ensures
            r.id@ == id@,
    {
        StringColumnFilter { id: id.to_owned() }
    }

}

impl ColumnFilter for StringColumnFilter {
    open spec fn grammar(&self) -> KindModel {
        KindModel::Text
    }

    open spec fn id_view(&self) -> Seq<char> {
        self.id@
    }

    fn id(&self) -> (r: &str) {
        self.id.as_str()
    }

    fn search_pattern(&self, pattern: &str, target: &str) -> (r: bool) {
        any_prefix(pattern, target)
    }
}

/// An unsigned integer column: a pattern is a comma-separated list of
/// conditions (`<=N`, `>=N`, `<N`, `>N`, `A><B`, or a prefix), all of which
/// must hold.
pub struct U32ColumnFilter {
    pub id: String,
}

impl U32ColumnFilter {
    pub fn new(id: &str) -> (r: U32ColumnFilter)
        ensures
            r.id@ == id@,
    {
        U32ColumnFilter { id: id.to_owned() }
    }

}

impl ColumnFilter for U32ColumnFilter {
    open spec fn grammar(&self) -> KindModel {
        KindModel::Unsigned
    }

    open spec fn id_view(&self) -> Seq<char> {
        self.id@
    }

    fn id(&self) -> (r: &str) {
        self.id.as_str()
    }

    fn search_pattern(&self, pattern: &str, target: &str) -> (r: bool) {
        all_conditions(&NumberSyntax::Unsigned, pattern, target)
    }
}

/// A signed integer column, with the grammar of unsigned columns over `i32`.
pub struct I32ColumnFilter {
    pub id: String,
}

impl I32ColumnFilter {
    pub fn new(id: &str) -> (r: I32ColumnFilter)
        ensures
            r.id@ == id@,
    {
        I32ColumnFilter { id: id.to_owned() }
    }

}

impl ColumnFilter for I32ColumnFilter {
    open spec fn grammar(&self) -> KindModel {
        KindModel::Signed
    }

    open spec fn id_view(&self) -> Seq<char> {
        self.id@
    }

    fn id(&self) -> (r: &str) {
        self.id.as_str()
    }

    fn search_pattern(&self, pattern: &str, target: &str) -> (r: bool) {
        all_conditions(&NumberSyntax::Signed, pattern, target)
    }
}

/// The text that a date column shows for the day count `days`.
pub open spec fn date_display(days: i32, fmt: Seq<char>) -> Seq<char> {
    match crate::date::formatted_date(days, fmt) {
        Some(s) => s,
        None => "PARSE ERR"@,
    }
}

/// A date column: values are day counts since 1970-01-01, shown and parsed
/// in the format `date_str_pattern`; patterns follow the grammar of integer
/// columns with dates as operands.
pub struct NaiveDateColumnFilter {
    pub id: String,
    pub date_str_pattern: String,
}

impl NaiveDateColumnFilter {
    pub fn new(id: &str, date_str_pattern: &str) -> (r: NaiveDateColumnFilter)
        ensures
            r.id@ == id@,
            r.date_str_pattern@ == date_str_pattern@,
    {
        NaiveDateColumnFilter { id: id.to_owned(), date_str_pattern: date_str_pattern.to_owned() }
    }


    /// The date `days` after 1970-01-01 in this column's format, or
    /// `PARSE ERR` where it cannot be written.
    pub fn get_string_value(&self, days: i32) -> (r: String)
        ensures
            r@ == date_display(days, self.date_str_pattern@),
    {
        match crate::date::format_date_days(days, self.date_str_pattern.as_str()) {
            Some(s) => s,
            None => "PARSE ERR".to_owned(),
        }
    }
}

impl ColumnFilter for NaiveDateColumnFilter {
    open spec fn grammar(&self) -> KindModel {
        KindModel::Date(self.date_str_pattern@)
    }

    open spec fn id_view(&self) -> Seq<char> {
        self.id@
    }

    fn id(&self) -> (r: &str) {
        self.id.as_str()
    }

    fn search_pattern(&self, pattern: &str, target: &str) -> (r: bool) {
        all_conditions(&NumberSyntax::Date(self.date_str_pattern.as_str()), pattern, target)
    }
}

/// A boolean column: a pattern matches when it occurs in the displayed text
/// (such as `Yes` or `No`).
pub struct BoolColumnFilter {
    pub id: String,
}

impl BoolColumnFilter {
    pub fn new(id: &str) -> (r: BoolColumnFilter)
        ensures
            r.id@ == id@,
    {
        BoolColumnFilter { id: id.to_owned() }
    }

}

impl ColumnFilter for BoolColumnFilter {
    open spec fn grammar(&self) -> KindModel {
        KindModel::Boolean
    }

    open spec fn id_view(&self) -> Seq<char> {
        self.id@
    }

    fn id(&self) -> (r: &str) {
        self.id.as_str()
    }

    fn search_pattern(&self, pattern: &str, target: &str) -> (r: bool) {
        contains_text(target, pattern)
    }
}

/// A column of codes: a pattern is a comma-separated list of texts, and
/// matches when one of them is the displayed text itself.
pub struct MemberColumnFilter {
    pub id: String,
}

impl MemberColumnFilter {
    pub fn new(id: &str) -> (r: MemberColumnFilter)
        ensures
            r.id@ == id@,
    {
        MemberColumnFilter { id: id.to_owned() }
    }
}

impl ColumnFilter for MemberColumnFilter {
    open spec fn grammar(&self) -> KindModel {
        KindModel::Member
    }

    open spec fn id_view(&self) -> Seq<char> {
        self.id@
    }

    fn id(&self) -> (r: &str) {
        self.id.as_str()
    }

    fn search_pattern(&self, pattern: &str, target: &str) -> (r: bool) {
        any_equal(pattern, target)
    }
}

} // verus!
