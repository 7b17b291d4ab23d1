use vstd::prelude::*;

use crate::column::{after_select_all, after_select_none, column_values, ColumnModel};
use crate::number::{digits_value, parse_i32_spec, parse_u32_spec};
use crate::pattern::{compare_holds, condition_holds, pattern_matches, range_holds, KindModel};
use crate::table::{achievable, kept_by_others};
use crate::text::{is_prefix, lemma_split_nonempty, range_sep_from, split_on};
use crate::value::{Cell, ScalarModel};

verus! {

/// Splitting a string that does not hold the separator gives the string
/// itself.
pub proof fn lemma_split_without_sep(s: Seq<char>, sep: char)
    requires
        !s.contains(sep),
    ensures
        split_on(s, sep) == seq![s],
    decreases s.len(),
{
    if s.len() == 0 {
        assert(s =~= Seq::<char>::empty());
    } else {
        assert(!s.drop_last().contains(sep)) by {
            if s.drop_last().contains(sep) {
                let i = choose|i: int| 0 <= i < s.drop_last().len() && s.drop_last()[i] == sep;
                assert(s[i] == sep);
            }
        }
        lemma_split_without_sep(s.drop_last(), sep);
        assert(s.last() != sep) by {
            assert(s[s.len() - 1] == s.last());
        }
        assert(s.drop_last().push(s.last()) =~= s);
        assert(split_on(s, sep) =~= seq![s]);
    }
}

/// The pieces of `x`, a separator, and `y` are those of `x` followed by
/// those of `y`.
pub proof fn lemma_split_concat(x: Seq<char>, sep: char, y: Seq<char>)
    ensures
        split_on(x + seq![sep] + y, sep) == split_on(x, sep) + split_on(y, sep),
    decreases y.len(),
{
    let z = x + seq![sep] + y;
    if y.len() == 0 {
        assert(z.drop_last() =~= x);
        assert(split_on(z, sep) =~= split_on(x, sep) + split_on(y, sep));
    } else {
        lemma_split_concat(x, sep, y.drop_last());
        lemma_split_nonempty(y.drop_last(), sep);
        assert(z.drop_last() =~= x + seq![sep] + y.drop_last());
        assert(z.last() == y.last());
        assert(split_on(z, sep) =~= split_on(x, sep) + split_on(y, sep));
    }
}

/// `p` and `q` joined by a comma, neither holding one, split into `p` and
/// `q`.
proof fn lemma_split_pair(p: Seq<char>, q: Seq<char>)
    requires
        !p.contains(','),
        !q.contains(','),
    ensures
        split_on(p + seq![','] + q, ',') == seq![p, q],
{
    lemma_split_concat(p, ',', q);
    lemma_split_without_sep(p, ',');
    lemma_split_without_sep(q, ',');
    assert(seq![p] + seq![q] =~= seq![p, q]);
}

/// A text pattern of two prefixes matches exactly the targets that start
/// with either of them: `"AB,SE"` matches `v` iff `v` starts with `"AB"` or
/// with `"SE"`.
pub proof fn law_text_pattern_is_any_prefix(v: Seq<char>)
    ensures
        pattern_matches(KindModel::Text, "AB,SE"@, v) <==> (is_prefix("AB"@, v) || is_prefix(
            "SE"@,
            v,
        )),
{
    reveal_strlit("AB,SE");
    reveal_strlit("AB");
    reveal_strlit("SE");
    let ab = seq!['A', 'B'];
    let se = seq!['S', 'E'];
    assert("AB,SE"@ =~= ab + seq![','] + se);
    assert(!ab.contains(',')) by {
        assert(ab[0] != ',' && ab[1] != ',');
    }
    assert(!se.contains(',')) by {
        assert(se[0] != ',' && se[1] != ',');
    }
    lemma_split_pair(ab, se);
    let parts = split_on("AB,SE"@, ',');
    assert(parts[0] == "AB"@ && parts[1] == "SE"@);
    if is_prefix("AB"@, v) {
        assert(is_prefix(parts[0], v));
    }
    if is_prefix("SE"@, v) {
        assert(is_prefix(parts[1], v));
    }
}

/// `"500"`, `"1000"`, `"10"` and `"20"` parse as the numbers they write,
/// in both integer grammars.
proof fn lemma_small_numbers()
    ensures
        parse_u32_spec("500"@) == Some(500u32),
        parse_u32_spec("1000"@) == Some(1000u32),
        parse_u32_spec("10"@) == Some(10u32),
        parse_u32_spec("20"@) == Some(20u32),
        parse_i32_spec("10"@) == Some(10i32),
        parse_i32_spec("20"@) == Some(20i32),
{
    reveal_strlit("500");
    reveal_strlit("1000");
    reveal_strlit("10");
    reveal_strlit("20");
    reveal_with_fuel(digits_value, 5);
    let s500 = "500"@;
    let s1000 = "1000"@;
    let s10 = "10"@;
    let s20 = "20"@;
    assert(s500.drop_last() =~= seq!['5', '0']);
    assert(seq!['5', '0'].drop_last() =~= seq!['5']);
    assert(seq!['5'].drop_last() =~= Seq::<char>::empty());
    assert(s1000.drop_last() =~= seq!['1', '0', '0']);
    assert(seq!['1', '0', '0'].drop_last() =~= seq!['1', '0']);
    assert(seq!['1', '0'].drop_last() =~= seq!['1']);
    assert(seq!['1'].drop_last() =~= Seq::<char>::empty());
    assert(s10 =~= seq!['1', '0']);
    assert(s20.drop_last() =~= seq!['2']);
    assert(seq!['2'].drop_last() =~= Seq::<char>::empty());
    assert(digits_value(s500) == 500);
    assert(digits_value(s1000) == 1000);
    assert(digits_value(s10) == 10);
    assert(digits_value(s20) == 20);
}

/// An unsigned pattern of two comparisons asks for both: `">500,<1000"`
/// matches `v` iff `v` reads as a number strictly between 500 and 1000.
pub proof fn law_unsigned_conditions_all_hold(v: Seq<char>)
    ensures
        pattern_matches(KindModel::Unsigned, ">500,<1000"@, v) <==> match parse_u32_spec(v) {
            Some(n) => 500 < n && n < 1000,
            None => false,
        },
{
    reveal_strlit(">500,<1000");
    reveal_strlit("500");
    reveal_strlit("1000");
    lemma_small_numbers();
    let above = seq!['>', '5', '0', '0'];
    let below = seq!['<', '1', '0', '0', '0'];
    assert(">500,<1000"@ =~= above + seq![','] + below);
    assert(!above.contains(',')) by {
        assert(above[0] != ',' && above[1] != ',' && above[2] != ',' && above[3] != ',');
    }
    assert(!below.contains(',')) by {
        assert(below[0] != ',' && below[1] != ',' && below[2] != ',' && below[3] != ','
            && below[4] != ',');
    }
    lemma_split_pair(above, below);
    reveal_with_fuel(range_sep_from, 6);
    assert(range_sep_from(above, 0) == -1);
    assert(range_sep_from(below, 0) == -1);
    assert(above.skip(1) =~= "500"@);
    assert(below.skip(1) =~= "1000"@);
    let k = KindModel::Unsigned;
    assert(condition_holds(k, above, v) == compare_holds(k, crate::pattern::Relation::Above, v, "500"@));
    assert(condition_holds(k, below, v) == compare_holds(k, crate::pattern::Relation::Below, v, "1000"@));
    let parts = split_on(">500,<1000"@, ',');
    assert(parts[0] == above && parts[1] == below);
    if condition_holds(k, above, v) && condition_holds(k, below, v) {
        assert forall|j: int| 0 <= j < parts.len() implies condition_holds(k, #[trigger] parts[j], v) by {
            if j == 0 {
                assert(parts[j] == above);
            } else {
                assert(parts[j] == below);
            }
        }
    }
    if pattern_matches(k, ">500,<1000"@, v) {
        assert(condition_holds(k, parts[0], v));
        assert(condition_holds(k, parts[1], v));
    }
}

/// The pieces of `"10><20"`: no comma, and a range separator after `10`.
proof fn lemma_range_pattern_shape()
    ensures
        split_on("10><20"@, ',') == seq!["10><20"@],
        range_sep_from("10><20"@, 0) == 2,
        "10><20"@.take(2) == "10"@,
        "10><20"@.skip(4) == "20"@,
{
    reveal_strlit("10><20");
    reveal_strlit("10");
    reveal_strlit("20");
    let s = "10><20"@;
    assert(!s.contains(',')) by {
        assert(s[0] != ',' && s[1] != ',' && s[2] != ',' && s[3] != ',' && s[4] != ',' && s[5]
            != ',');
    }
    lemma_split_without_sep(s, ',');
    reveal_with_fuel(range_sep_from, 4);
    assert(s.take(2) =~= "10"@);
    assert(s.skip(4) =~= "20"@);
}

/// A range pattern is inclusive at both ends: `"10><20"` matches `v` iff `v`
/// reads as a number from 10 to 20, in unsigned and in signed columns.
pub proof fn law_range_pattern_is_inclusive(v: Seq<char>)
    ensures
        pattern_matches(KindModel::Unsigned, "10><20"@, v) <==> match parse_u32_spec(v) {
            Some(n) => 10 <= n && n <= 20,
            None => false,
        },
        pattern_matches(KindModel::Signed, "10><20"@, v) <==> match parse_i32_spec(v) {
            Some(n) => 10 <= n && n <= 20,
            None => false,
        },
{
    lemma_range_pattern_shape();
    lemma_small_numbers();
    let s = "10><20"@;
    let parts = split_on(s, ',');
    assert(parts.len() == 1 && parts[0] == s);
    assert(condition_holds(KindModel::Unsigned, s, v) == range_holds(KindModel::Unsigned, v, "10"@, "20"@));
    assert(condition_holds(KindModel::Signed, s, v) == range_holds(KindModel::Signed, v, "10"@, "20"@));
    if pattern_matches(KindModel::Unsigned, s, v) {
        assert(condition_holds(KindModel::Unsigned, parts[0], v));
    }
    if pattern_matches(KindModel::Signed, s, v) {
        assert(condition_holds(KindModel::Signed, parts[0], v));
    }
}

/// Deselecting every value of a column and then selecting every value
/// leaves the column with nothing hidden, whenever each hidden value occurs
/// in the column.
pub proof fn law_select_none_then_all_clears(c: ColumnModel, data: Seq<Vec<Cell>>)
    requires
        c.excluded.subset_of(column_values(data, c.column)),
    ensures
        after_select_all(after_select_none(c.excluded, data, c.column), data, c.column)
            == Set::<ScalarModel>::empty(),
{
    assert(after_select_all(after_select_none(c.excluded, data, c.column), data, c.column)
        =~= Set::<ScalarModel>::empty());
}

/// Whether a row is reachable for column `k` does not depend on what
/// column `k` itself hides or searches: two tables that agree on every
/// other column mark every row alike.
pub proof fn law_reachable_ignores_own_column(
    t1: Seq<ColumnModel>,
    t2: Seq<ColumnModel>,
    k: int,
    row: Seq<Cell>,
)
    requires
        t1.len() == t2.len(),
        0 <= k < t1.len(),
        forall|j: int| 0 <= j < t1.len() && j != k ==> t1[j] == t2[j],
    ensures
        kept_by_others(t1, Some(k as usize), row) == kept_by_others(t2, Some(k as usize), row),
{
    assert forall|j: int| 0 <= j < t1.len() && Some(k as usize) != Some(j as usize) implies t1[j]
        == t2[j] by {
        assert(j != k);
    }
}

/// The values still reachable in column `k` do not depend on what column
/// `k` itself hides or searches: two tables that agree on every other
/// column give the same facet.
pub proof fn law_achievable_ignores_own_column(
    t1: Seq<ColumnModel>,
    t2: Seq<ColumnModel>,
    k: int,
    data: Seq<Vec<Cell>>,
)
    requires
        t1.len() == t2.len(),
        0 <= k < t1.len(),
        forall|j: int| 0 <= j < t1.len() && j != k ==> t1[j] == t2[j],
    ensures
        achievable(t1, k, data) == achievable(t2, k, data),
{
    assert forall|i: int| 0 <= i < data.len() implies kept_by_others(t1, Some(k as usize), data[i]@)
        == kept_by_others(t2, Some(k as usize), data[i]@) by {
        law_reachable_ignores_own_column(t1, t2, k, data[i]@);
    }
    assert(achievable(t1, k, data) =~= achievable(t2, k, data));
}

} // verus!
