use vstd::prelude::*;

use crate::column::{cell_value, distinct_values, value_set, ColumnModel};
use crate::pattern::pattern_matches;
use crate::table::{achievable, data_fits, has_id, index_of, row_fits, TableFilter};
use crate::value::{lemma_scalar_le_reflexive, lemma_scalar_le_total, lemma_scalar_le_transitive, scalar_le, Cell, ScalarModel, ScalarValue};

verus! {

/// One line of a column's value menu.
pub struct MenuEntry {
    pub value: ScalarValue,
    pub display: String,
    /// The value is shown, not hidden by the column's filter.
    pub checked: bool,
    /// Some row bearing the value is kept by every other column; an
    /// unreachable value is still listed, and may still be toggled.
    pub reachable: bool,
}

/// Row `i` is listed in the menu of column `c`: the search text is empty
/// or matches the row's displayed text.
pub open spec fn row_listed(c: ColumnModel, data: Seq<Vec<Cell>>, i: int) -> bool {
    c.search.len() == 0 || pattern_matches(c.grammar, c.search, data[i]@[c.column as int].display@)
}

/// Some listed row of column `c` bears `value` and displays it as
/// `display`.
pub open spec fn shown_by_row(c: ColumnModel, data: Seq<Vec<Cell>>, value: ScalarModel, display: Seq<char>) -> bool {
    exists|i: int|
        0 <= i < data.len() && row_listed(c, data, i) && cell_value(data, i, c.column) == value
            && data[i]@[c.column as int].display@ == display
}

/// The values that the menu of column `c` lists.
pub open spec fn menu_values(c: ColumnModel, data: Seq<Vec<Cell>>) -> Set<ScalarModel> {
    Set::new(
        |m: ScalarModel|
            exists|i: int| 0 <= i < data.len() && row_listed(c, data, i) && cell_value(data, i, c.column) == m,
    )
}

/// Strictly increasing in the order of values.
pub open spec fn sorted_cells(s: Seq<Cell>) -> bool {
    forall|i: int, j: int| 0 <= i < j < s.len() ==> scalar_le(s[i].value@, s[j].value@) && s[i].value@ != s[j].value@
}

/// The values of a sequence of cells.
pub open spec fn cell_values(s: Seq<Cell>) -> Set<ScalarModel> {
    Set::new(|m: ScalarModel| exists|i: int| 0 <= i < s.len() && #[trigger] s[i].value@ == m)
}

/// Adds `cell` at its place in the sorted `cells`, unless its value is
/// already there.
fn insert_sorted(cells: &mut Vec<Cell>, cell: Cell)
    requires
        sorted_cells(old(cells)@),
    ensures
        sorted_cells(final(cells)@),
        cell_values(final(cells)@) == cell_values(old(cells)@).insert(cell.value@),
        forall|x: int| 0 <= x < final(cells)@.len() ==> (exists|y: int| 0 <= y < old(cells)@.len()
            && #[trigger] final(cells)@[x] == old(cells)@[y]) || final(cells)@[x] == cell,
{
    let ghost before = cells@;
    let mut p: usize = 0;
    while p < cells.len() && cells[p].value.less_or_equal(&cell.value)
        invariant
            cells@ == before,
            sorted_cells(before),
            p <= before.len(),
            forall|j: int| 0 <= j < p ==> scalar_le(before[j].value@, cell.value@) && before[j].value@ != cell.value@,
        decreases before.len() - p,
    {
        if cells[p].value.same_as(&cell.value) {
            assert(cell_values(before).insert(cell.value@) =~= cell_values(before)) by {
                assert(cell_values(before).contains(cell.value@)) by {
                    assert(before[p as int].value@ == cell.value@);
                }
            }
            assert forall|x: int| 0 <= x < cells@.len() implies (exists|y: int| 0 <= y < before.len()
                && #[trigger] cells@[x] == before[y]) || cells@[x] == cell by {
                assert(cells@[x] == before[x]);
            }
            return;
        }
        p = p + 1;
    }
    assert(p == before.len() || !scalar_le(before[p as int].value@, cell.value@));
    proof {
        if p < before.len() {
            lemma_scalar_le_total(before[p as int].value@, cell.value@);
        }
    }
    let ghost v = cell.value@;
    let ghost c = cell;
    cells.insert(p, cell);
    let ghost after = cells@;
    assert(after =~= before.insert(p as int, c));
    assert forall|i: int, j: int| 0 <= i < j < after.len() implies scalar_le(after[i].value@, after[j].value@)
        && after[i].value@ != after[j].value@ by {
        if j < p {
            assert(after[i] == before[i] && after[j] == before[j]);
            assert(scalar_le(before[i].value@, before[j].value@) && before[i].value@ != before[j].value@);
        } else if j == p {
            assert(after[i] == before[i] && after[j] == c);
            assert(scalar_le(before[i].value@, v) && before[i].value@ != v);
        } else {
            assert(after[j] == before[j - 1]);
            assert(p < before.len());
            assert(scalar_le(v, before[p as int].value@));
            if j - 1 > p {
                assert(scalar_le(before[p as int].value@, before[j - 1].value@));
                lemma_scalar_le_transitive(v, before[p as int].value@, before[j - 1].value@);
                if v == before[j - 1].value@ {
                    assert(scalar_le(before[p as int].value@, v));
                }
            } else {
                if v == before[j - 1].value@ {
                    lemma_scalar_le_reflexive(v);
                }
            }
            assert(scalar_le(v, before[j - 1].value@) && v != before[j - 1].value@);
            if i < p {
                assert(after[i] == before[i]);
                lemma_scalar_le_transitive(before[i].value@, v, before[j - 1].value@);
                assert(scalar_le(before[i].value@, before[j - 1].value@) && before[i].value@ != before[j - 1].value@);
            } else if i == p {
                assert(after[i] == c);
            } else {
                assert(after[i] == before[i - 1]);
                assert(scalar_le(before[i - 1].value@, before[j - 1].value@) && before[i - 1].value@ != before[j - 1].value@);
            }
        }
    }
    assert(cell_values(after) =~= cell_values(before).insert(v)) by {
        assert forall|m: ScalarModel| #[trigger] cell_values(after).contains(m)
            implies cell_values(before).insert(v).contains(m) by {
            let x = choose|x: int| 0 <= x < after.len() && after[x].value@ == m;
            if x < p {
                assert(after[x] == before[x]);
            } else if x > p {
                assert(after[x] == before[x - 1]);
            }
        }
        assert forall|m: ScalarModel| #[trigger] cell_values(before).insert(v).contains(m)
            implies cell_values(after).contains(m) by {
            if m == v {
                assert(after[p as int].value@ == m);
            } else {
                let y = choose|y: int| 0 <= y < before.len() && before[y].value@ == m;
                if y < p {
                    assert(after[y] == before[y]);
                } else {
                    assert(after[y + 1] == before[y]);
                }
            }
        }
    }
    assert forall|x: int| 0 <= x < after.len() implies (exists|y: int| 0 <= y < before.len()
        && #[trigger] after[x] == before[y]) || after[x] == c by {
        if x < p {
            assert(after[x] == before[x]);
        } else if x > p {
            assert(after[x] == before[x - 1]);
        }
    }
}

/// Whether `v` is among the values of `s`.
fn holds_value(s: &Vec<ScalarValue>, v: &ScalarValue) -> (r: bool)
    ensures
        r == value_set(s@).contains(v@),
{
    let mut i: usize = 0;
    while i < s.len()
        invariant
            i <= s@.len(),
            forall|j: int| 0 <= j < i ==> s@[j]@ != v@,
        decreases s@.len() - i,
    {
        if s[i].same_as(v) {
            assert(s@[i as int]@ == v@);
            return true;
        }
        i = i + 1;
    }
    false
}

impl TableFilter {
    /// The menu of column `id`: one entry per distinct value among the rows
    /// that its search text matches (all rows when it is empty), in the
    /// order of values, each shown with the text of a row bearing it,
    /// marked checked when the column shows it and reachable when it is
    /// in the column's facet.
    pub fn menu_entries(&self, id: &str, data: &Vec<Vec<Cell>>) -> (r: Vec<MenuEntry>)
        requires
            self.wf(),
            has_id(self@, id@),
            data_fits(self@, data@),
        ensures
            ({
                let k = index_of(self@, id@);
                let c = self@[k];
                &&& Set::new(|m: ScalarModel| exists|x: int| 0 <= x < r@.len() && #[trigger] r@[x].value@ == m)
                    == menu_values(c, data@)
                &&& forall|x: int, y: int|
                    0 <= x < y < r@.len() ==> scalar_le(r@[x].value@, r@[y].value@) && r@[x].value@
                        != r@[y].value@
                &&& forall|x: int|
                    0 <= x < r@.len() ==> shown_by_row(c, data@, (#[trigger] r@[x]).value@, r@[x].display@)
                &&& forall|x: int|
                    0 <= x < r@.len() ==> (#[trigger] r@[x]).checked == !c.excluded.contains(r@[x].value@)
                &&& forall|x: int|
                    0 <= x < r@.len() ==> (#[trigger] r@[x]).reachable == achievable(self@, k, data@).contains(
                        r@[x].value@,
                    )
            }),
    {
        let k = self.position(id).unwrap();
        let column = self.get_by_id(id);
        let ghost c = self@[k as int];
        assert(column@ == c);
        proof {
            self.lemma_positions();
        }
        assert(c.column == k);
        let searching = column.search_text().unicode_len() > 0;
        let mut cells: Vec<Cell> = Vec::new();
        let mut i: usize = 0;
        while i < data.len()
            invariant
                self.wf(),
                column@ == c,
                c.column == k,
                k < self@.len(),
                data_fits(self@, data@),
                searching == (c.search.len() > 0),
                i <= data@.len(),
                sorted_cells(cells@),
                cell_values(cells@) == Set::new(
                    |m: ScalarModel|
                        exists|j: int| 0 <= j < i && row_listed(c, data@, j) && cell_value(data@, j, c.column) == m,
                ),
                forall|x: int|
                    0 <= x < cells@.len() ==> exists|j: int|
                        0 <= j < i && row_listed(c, data@, j) && cell_value(data@, j, c.column)
                            == (#[trigger] cells@[x]).value@ && data@[j]@[c.column as int].display@
                            == cells@[x].display@,
            decreases data@.len() - i,
        {
            assert(row_fits(self@, data@[i as int]@));
            let display = data[i][k].display.as_str();
            let listed = !searching || column.search_pattern(column.search_text(), display);
            assert(listed == row_listed(c, data@, i as int));
            let ghost old_cells = cells@;
            let ghost old_values = cell_values(cells@);
            if listed {
                let cell = Cell { value: data[i][k].value.duplicate(), display: data[i][k].display.clone() };
                insert_sorted(&mut cells, cell);
                assert forall|x: int| 0 <= x < cells@.len() implies exists|j: int|
                    0 <= j < i + 1 && row_listed(c, data@, j) && cell_value(data@, j, c.column)
                        == (#[trigger] cells@[x]).value@ && data@[j]@[c.column as int].display@
                        == cells@[x].display@ by {
                    if cells@[x] != cell {
                        let y = choose|y: int| 0 <= y < old_cells.len() && cells@[x] == old_cells[y];
                        assert(old_cells[y] == cells@[x]);
                    } else {
                        assert(cell_value(data@, i as int, c.column) == cell.value@);
                    }
                }
            }
            assert(cell_values(cells@) =~= Set::new(
                |m: ScalarModel|
                    exists|j: int| 0 <= j < i + 1 && row_listed(c, data@, j) && cell_value(data@, j, c.column) == m,
            )) by {
                let now = Set::new(
                    |m: ScalarModel|
                        exists|j: int| 0 <= j < i + 1 && row_listed(c, data@, j) && cell_value(data@, j, c.column) == m,
                );
                let was = Set::new(
                    |m: ScalarModel|
                        exists|j: int| 0 <= j < i && row_listed(c, data@, j) && cell_value(data@, j, c.column) == m,
                );
                assert forall|m: ScalarModel| now.contains(m) implies #[trigger] cell_values(cells@).contains(m) by {
                    let j = choose|j: int| 0 <= j < i + 1 && row_listed(c, data@, j) && cell_value(data@, j, c.column) == m;
                    if j < i {
                        assert(was.contains(m));
                    }
                }
                assert forall|m: ScalarModel| #[trigger] cell_values(cells@).contains(m) implies now.contains(m) by {
                    if !(listed && m == cell_value(data@, i as int, c.column)) {
                        assert(old_values.contains(m));
                        assert(was.contains(m));
                    }
                }
            }
            i = i + 1;
        }
        assert(cell_values(cells@) =~= menu_values(c, data@));
        let facet = self.achievable_values(id, data);
        let mut out: Vec<MenuEntry> = Vec::new();
        let mut x: usize = 0;
        while x < cells.len()
            invariant
                column@ == c,
                value_set(facet@) == achievable(self@, k as int, data@),
                x <= cells@.len(),
                out@.len() == x,
                forall|y: int| 0 <= y < x ==> (#[trigger] out@[y]).value@ == cells@[y].value@
                    && out@[y].display@ == cells@[y].display@
                    && out@[y].checked == !c.excluded.contains(cells@[y].value@)
                    && out@[y].reachable == achievable(self@, k as int, data@).contains(cells@[y].value@),
            decreases cells@.len() - x,
        {
            let value = cells[x].value.duplicate();
            let checked = column.contains(&value);
            let reachable = holds_value(&facet, &value);
            out.push(MenuEntry { value, display: cells[x].display.clone(), checked, reachable });
            x = x + 1;
        }
        assert(Set::new(|m: ScalarModel| exists|x: int| 0 <= x < out@.len() && #[trigger] out@[x].value@ == m)
            =~= cell_values(cells@)) by {
            assert forall|m: ScalarModel| #[trigger] cell_values(cells@).contains(m) implies
                exists|x: int| 0 <= x < out@.len() && #[trigger] out@[x].value@ == m by {
                let x = choose|x: int| 0 <= x < cells@.len() && cells@[x].value@ == m;
                assert(out@[x].value@ == m);
            }
        }
        assert forall|x: int| 0 <= x < out@.len() implies shown_by_row(c, data@, (#[trigger] out@[x]).value@, out@[x].display@) by {
            assert(out@[x].value@ == cells@[x].value@);
            let j = choose|j: int| 0 <= j < data@.len() && row_listed(c, data@, j) && cell_value(data@, j, c.column)
                == (#[trigger] cells@[x]).value@ && data@[j]@[c.column as int].display@ == cells@[x].display@;
            assert(0 <= j < data@.len() && row_listed(c, data@, j) && cell_value(data@, j, c.column)
                == out@[x].value@ && data@[j]@[c.column as int].display@ == out@[x].display@);
        }
        assert forall|x: int, y: int| 0 <= x < y < out@.len() implies scalar_le(out@[x].value@, out@[y].value@)
            && out@[x].value@ != out@[y].value@ by {
            assert(out@[x].value@ == cells@[x].value@);
            assert(out@[y].value@ == cells@[y].value@);
        }
        assert(index_of(self@, id@) == k);
        assert(Set::new(|m: ScalarModel| exists|x: int| 0 <= x < out@.len() && #[trigger] out@[x].value@ == m)
            == menu_values(c, data@));
        assert(forall|x: int|
            0 <= x < out@.len() ==> (#[trigger] out@[x]).checked == !c.excluded.contains(out@[x].value@));
        assert(forall|x: int|
            0 <= x < out@.len() ==> (#[trigger] out@[x]).reachable == achievable(self@, k as int, data@).contains(
                out@[x].value@));
        out
    }
}

} // verus!
