use vstd::prelude::*;

use crate::column::{
    after_apply_search, after_select_all, after_select_none, cell_value, distinct_values, keeps,
    rows_fit, toggled, value_set, ColumnFilterImpl, ColumnKind, ColumnModel,
};
use crate::pattern::ColumnFilter;
use crate::value::{text_equal, Cell, ScalarModel, ScalarValue};

verus! {

/// Every column keeps `row`.
pub open spec fn table_keeps(t: Seq<ColumnModel>, row: Seq<Cell>) -> bool {
    forall|k: int| 0 <= k < t.len() ==> keeps(#[trigger] t[k], row)
}

/// Every column but the one at `skip` (if any) keeps `row`.
pub open spec fn kept_by_others(t: Seq<ColumnModel>, skip: Option<usize>, row: Seq<Cell>) -> bool {
    forall|k: int| 0 <= k < t.len() && skip != Some(k as usize) ==> keeps(#[trigger] t[k], row)
}

/// `row` has a cell for each column.
pub open spec fn row_fits(t: Seq<ColumnModel>, row: Seq<Cell>) -> bool {
    t.len() <= row.len()
}

/// Every row of `data` has a cell for each column.
pub open spec fn data_fits(t: Seq<ColumnModel>, data: Seq<Vec<Cell>>) -> bool {
    forall|i: int| 0 <= i < data.len() ==> row_fits(t, (#[trigger] data[i])@)
}

/// The values of column `k` on the rows that every other column keeps.
pub open spec fn achievable(t: Seq<ColumnModel>, k: int, data: Seq<Vec<Cell>>) -> Set<ScalarModel> {
    Set::new(
        |m: ScalarModel|
            exists|i: int|
                0 <= i < data.len() && kept_by_others(t, Some(k as usize), data[i]@) && cell_value(
                    data,
                    i,
                    k as nat,
                ) == m,
    )
}

/// The position of the column with id `id`.
pub open spec fn index_of(t: Seq<ColumnModel>, id: Seq<char>) -> int {
    choose|k: int| 0 <= k < t.len() && t[k].id == id
}

/// Some column has id `id`.
pub open spec fn has_id(t: Seq<ColumnModel>, id: Seq<char>) -> bool {
    exists|k: int| 0 <= k < t.len() && t[k].id == id
}

/// A user action on the filter of one column.
pub enum FilterCommand {
    /// Hide the value if it is shown, show it if it is hidden.
    ToggleValue(ScalarValue),
    /// Replace the pending search text.
    SetSearchText(String),
    /// Commit the pending search text.
    ApplySearch,
    /// Show every value of the column.
    SelectAll,
    /// Hide every value of the column.
    SelectNone,
    /// Clear every column of the table, not only this one.
    Reset,
}

/// The columns after `cmd` is issued from column `k`, over the rows `data`.
pub open spec fn after_command(
    t: Seq<ColumnModel>,
    k: int,
    cmd: FilterCommand,
    data: Seq<Vec<Cell>>,
) -> Seq<ColumnModel> {
    match cmd {
        FilterCommand::ToggleValue(v) => t.update(
            k,
            ColumnModel { excluded: toggled(t[k].excluded, v@), ..t[k] },
        ),
        FilterCommand::SetSearchText(text) => t.update(k, ColumnModel { search: text@, ..t[k] }),
        FilterCommand::ApplySearch => t.update(
            k,
            ColumnModel {
                excluded: after_apply_search(t[k].excluded, t[k].grammar, t[k].search, data, k as nat),
                ..t[k]
            },
        ),
        FilterCommand::SelectAll => t.update(
            k,
            ColumnModel { excluded: after_select_all(t[k].excluded, data, k as nat), ..t[k] },
        ),
        FilterCommand::SelectNone => t.update(
            k,
            ColumnModel { excluded: after_select_none(t[k].excluded, data, k as nat), ..t[k] },
        ),
        FilterCommand::Reset => Seq::new(
            t.len(),
            |j: int|
                ColumnModel {
                    search: Seq::<char>::empty(),
                    excluded: Set::<ScalarModel>::empty(),
                    ..t[j]
                },
        ),
    }
}

/// The filters of all columns of a table, in the order of registration,
/// which is also the order of the cells in each row.
pub struct TableFilter {
    column_filters: Vec<ColumnFilterImpl>,
}

impl View for TableFilter {
    type V = Seq<ColumnModel>;

    closed spec fn view(&self) -> Seq<ColumnModel> {
        self.column_filters@.map_values(|c: ColumnFilterImpl| c@)
    }
}

impl TableFilter {
    /// Each column sits at its own position, and ids are unique.
    pub closed spec fn wf(&self) -> bool {
        &&& forall|k: int|
            0 <= k < self.column_filters@.len() ==> (#[trigger] self.column_filters@[k]).wf()
        &&& forall|k: int| 0 <= k < self@.len() ==> (#[trigger] self@[k]).column == k
        &&& forall|j: int, k: int| 0 <= j < k < self@.len() ==> self@[j].id != self@[k].id
    }

    /// Each column's cell sits at the column's own position in the row.
    pub proof fn lemma_positions(&self)
        requires
            self.wf(),
        ensures
            forall|k: int| 0 <= k < self@.len() ==> (#[trigger] self@[k]).column == k,
    {
    }

    /// A table with no column.
    pub fn new() -> (r: TableFilter)
        ensures
            r.wf(),
            r@.len() == 0,
    {
        let r = TableFilter { column_filters: Vec::new() };
        assert(r@ =~= Seq::<ColumnModel>::empty());
        r
    }

    /// The number of columns.
    pub fn len(&self) -> (r: usize)
        ensures
            r == self@.len(),
    {
        self.column_filters.len()
    }

    /// The position of the column with id `id`, if there is one.
    pub fn position(&self, id: &str) -> (r: Option<usize>)
        requires
            self.wf(),
        ensures
            match r {
                Some(k) => k < self@.len() && self@[k as int].id == id@ && index_of(self@, id@) == k,
                None => !has_id(self@, id@),
            },
    {
        let mut k: usize = 0;
        while k < self.column_filters.len()
            invariant
                self.wf(),
                k <= self@.len(),
                self@.len() == self.column_filters@.len(),
                forall|j: int| 0 <= j < self@.len() ==> self@[j] == (#[trigger] self.column_filters@[j])@,
                forall|j: int| 0 <= j < k ==> self@[j].id != id@,
            decreases self@.len() - k,
        {
            if text_equal(self.column_filters[k].id(), id) {
                assert(self@[k as int].id == id@);
                assert(has_id(self@, id@));
                let ghost c = index_of(self@, id@);
                assert(c == k as int) by {
                    if c != k as int {
                        if c < k {
                            assert(self@[c].id != self@[k as int].id);
                        } else {
                            assert(self@[k as int].id != self@[c].id);
                        }
                    }
                }
                return Some(k);
            }
            k = k + 1;
        }
        None
    }

    /// Appends a filter for a column of kind `kind`, whose cell is the next
    /// one in each row.  Returns false, and changes nothing, when a column
    /// with the same id is already registered.
    pub fn add(&mut self, kind: ColumnKind) -> (r: bool)
        requires
            old(self).wf(),
        ensures
            final(self).wf(),
            r == !has_id(old(self)@, kind.id_view()),
            r ==> final(self)@.len() == old(self)@.len() + 1 && final(self)@.drop_last() == old(
                self,
            )@ && final(self)@.last() == (ColumnModel {
                id: kind.id_view(),
                grammar: kind.grammar(),
                column: old(self)@.len(),
                search: Seq::<char>::empty(),
                excluded: Set::<ScalarModel>::empty(),
            }),
            !r ==> final(self)@ == old(self)@,
    {
        let found = self.position(kind.id());
        if found.is_some() {
            return false;
        }
        let ghost before = self@;
        let n = self.column_filters.len();
        let c = ColumnFilterImpl::new(kind, n);
        assert(c@.search =~= Seq::<char>::empty());
        let ghost old_filters = self.column_filters@;
        self.column_filters.push(c);
        assert(self@.drop_last() =~= before);
        assert(self@[n as int] == c@);
        assert forall|j: int| 0 <= j < n implies #[trigger] self.column_filters@[j] == old_filters[j] && self@[j] == before[j] by {}
        assert forall|j: int| 0 <= j < n implies before[j].id != c@.id by {
            if before[j].id == c@.id {
                assert(has_id(before, kind.id_view()));
            }
        }
        true
    }

    /// The filter of the column with id `id`.
    pub fn get_by_id(&self, id: &str) -> (r: &ColumnFilterImpl)
        requires
            self.wf(),
            has_id(self@, id@),
        ensures
            r@ == self@[index_of(self@, id@)],
            r.wf(),
    {
        let k = self.position(id).unwrap();
        &self.column_filters[k]
    }

    /// Whether the column with id `id` hides any value.
    pub fn is_active_for(&self, id: &str) -> (r: bool)
        requires
            self.wf(),
            has_id(self@, id@),
        ensures
            r == !self@[index_of(self@, id@)].excluded.is_empty(),
    {
        self.get_by_id(id).is_active()
    }

    /// Whether every column keeps `row`.
    pub fn evaluate(&self, row: &Vec<Cell>) -> (r: bool)
        requires
            self.wf(),
            row_fits(self@, row@),
        ensures
            r == table_keeps(self@, row@),
            self@.len() == 0 ==> r,
    {
        let mut k: usize = 0;
        while k < self.column_filters.len()
            invariant
                self.wf(),
                row_fits(self@, row@),
                k <= self@.len(),
                forall|j: int| 0 <= j < k ==> keeps(#[trigger] self@[j], row@),
            decreases self@.len() - k,
        {
            assert(self@[k as int] == self.column_filters@[k as int]@);
            if !self.column_filters[k].evaluate(row) {
                return false;
            }
            k = k + 1;
        }
        true
    }

    /// For each row of `data`, whether every column but the one at
    /// `exclude_idx` keeps it.
    pub fn evaluate_array(&self, data: &Vec<Vec<Cell>>, exclude_idx: Option<usize>) -> (r: Vec<bool>)
        requires
            self.wf(),
            data_fits(self@, data@),
            match exclude_idx {
                Some(k) => k < self@.len(),
                None => true,
            },
        ensures
            r@.len() == data@.len(),
            forall|i: int| 0 <= i < data@.len() ==> r@[i] == kept_by_others(self@, exclude_idx, data@[i]@),
    {
        let mut result: Vec<bool> = Vec::new();
        let mut i: usize = 0;
        while i < data.len()
            invariant
                self.wf(),
                data_fits(self@, data@),
                i <= data@.len(),
                result@.len() == i,
                forall|j: int| 0 <= j < i ==> result@[j] == kept_by_others(self@, exclude_idx, data@[j]@),
            decreases data@.len() - i,
        {
            let row = &data[i];
            assert(row_fits(self@, row@));
            let mut keep = true;
            let mut k: usize = 0;
            while k < self.column_filters.len()
                invariant
                    self.wf(),
                    row_fits(self@, row@),
                    k <= self@.len(),
                    keep == (forall|j: int| 0 <= j < k && exclude_idx != Some(j as usize) ==> keeps(#[trigger] self@[j], row@)),
                decreases self@.len() - k,
            {
                assert(self@[k as int] == self.column_filters@[k as int]@);
                let skipped = match exclude_idx {
                    Some(x) => x == k,
                    None => false,
                };
                if !skipped && !self.column_filters[k].evaluate(row) {
                    keep = false;
                }
                k = k + 1;
            }
            result.push(keep);
            i = i + 1;
        }
        result
    }

    /// For each row of `data`, whether every column other than `id` keeps
    /// it: the rows on which `id`'s values are still reachable.
    pub fn reachable(&self, id: &str, data: &Vec<Vec<Cell>>) -> (r: Vec<bool>)
        requires
            self.wf(),
            has_id(self@, id@),
            data_fits(self@, data@),
        ensures
            r@.len() == data@.len(),
            forall|i: int|
                0 <= i < data@.len() ==> r@[i] == kept_by_others(
                    self@,
                    Some(index_of(self@, id@) as usize),
                    data@[i]@,
                ),
    {
        let k = self.position(id).unwrap();
        self.evaluate_array(data, Some(k))
    }

    /// The distinct values of column `id` on the rows that every other
    /// column keeps.
    pub fn achievable_values(&self, id: &str, data: &Vec<Vec<Cell>>) -> (r: Vec<ScalarValue>)
        requires
            self.wf(),
            has_id(self@, id@),
            data_fits(self@, data@),
        ensures
            distinct_values(r@),
            value_set(r@) == achievable(self@, index_of(self@, id@), data@),
    {
        let k = self.position(id).unwrap();
        let reach = self.evaluate_array(data, Some(k));
        let mut out: Vec<ScalarValue> = Vec::new();
        let ghost t = self@;
        let mut i: usize = 0;
        assert(value_set(out@) =~= achievable(t, k as int, data@.take(0)));
        while i < data.len()
            invariant
                self.wf(),
                t == self@,
                k < t.len(),
                data_fits(t, data@),
                reach@.len() == data@.len(),
                forall|j: int| 0 <= j < data@.len() ==> reach@[j] == kept_by_others(t, Some(k), data@[j]@),
                i <= data@.len(),
                distinct_values(out@),
                value_set(out@) == achievable(t, k as int, data@.take(i as int)),
            decreases data@.len() - i,
        {
            let ghost before = data@.take(i as int);
            let ghost after = data@.take(i + 1);
            assert forall|j: int| 0 <= j < before.len() implies #[trigger] after[j] == before[j] by {}
            assert(after[i as int] == data@[i as int]);
            assert(row_fits(t, data@[i as int]@));
            let ghost old_out = out@;
            if reach[i] {
                let v = data[i][k].value.duplicate();
                let mut seen = false;
                let mut j: usize = 0;
                while j < out.len()
                    invariant
                        j <= out@.len(),
                        seen == (exists|x: int| 0 <= x < j && out@[x]@ == v@),
                    decreases out@.len() - j,
                {
                    if out[j].same_as(&v) {
                        seen = true;
                    }
                    j = j + 1;
                }
                if !seen {
                    out.push(v);
                }
                assert(value_set(out@) =~= achievable(t, k as int, after)) by {
                    assert forall|m: ScalarModel| #[trigger] value_set(out@).contains(m)
                        implies achievable(t, k as int, after).contains(m) by {
                        let x = choose|x: int| 0 <= x < out@.len() && out@[x]@ == m;
                        if x < old_out.len() {
                            assert(old_out[x]@ == m);
                            assert(value_set(old_out).contains(m));
                            let y = choose|y: int| 0 <= y < before.len() && kept_by_others(t, Some(k), before[y]@)
                                && cell_value(before, y, k as nat) == m;
                            assert(after[y] == before[y]);
                            assert(cell_value(after, y, k as nat) == m);
                        } else {
                            assert(cell_value(after, i as int, k as nat) == m);
                        }
                    }
                    assert forall|m: ScalarModel| #[trigger] achievable(t, k as int, after).contains(m)
                        implies value_set(out@).contains(m) by {
                        let y = choose|y: int| 0 <= y < after.len() && kept_by_others(t, Some(k), after[y]@)
                            && cell_value(after, y, k as nat) == m;
                        if y < i {
                            assert(after[y] == before[y]);
                            assert(cell_value(before, y, k as nat) == m);
                            assert(achievable(t, k as int, before).contains(m));
                            let x = choose|x: int| 0 <= x < old_out.len() && old_out[x]@ == m;
                            assert(out@[x] == old_out[x]);
                        } else if seen {
                            let x = choose|x: int| 0 <= x < old_out.len() && old_out[x]@ == v@;
                            assert(out@[x] == old_out[x]);
                        } else {
                            assert(out@[old_out.len() as int]@ == m);
                        }
                    }
                }
            } else {
                assert(value_set(out@) =~= achievable(t, k as int, after)) by {
                    assert forall|m: ScalarModel| #[trigger] achievable(t, k as int, after).contains(m)
                        implies achievable(t, k as int, before).contains(m) by {
                        let y = choose|y: int| 0 <= y < after.len() && kept_by_others(t, Some(k), after[y]@)
                            && cell_value(after, y, k as nat) == m;
                        assert(y < i);
                        assert(after[y] == before[y]);
                        assert(cell_value(before, y, k as nat) == m);
                    }
                    assert forall|m: ScalarModel| #[trigger] achievable(t, k as int, before).contains(m)
                        implies achievable(t, k as int, after).contains(m) by {
                        let y = choose|y: int| 0 <= y < before.len() && kept_by_others(t, Some(k), before[y]@)
                            && cell_value(before, y, k as nat) == m;
                        assert(after[y] == before[y]);
                        assert(cell_value(after, y, k as nat) == m);
                    }
                }
            }
            i = i + 1;
        }
        assert(data@.take(i as int) =~= data@);
        out
    }

    /// Hides `value` in column `id` if it is shown there, and shows it if
    /// it is hidden.
    pub fn toggle_value(&mut self, id: &str, value: ScalarValue)
        requires
            old(self).wf(),
            has_id(old(self)@, id@),
        ensures
            final(self).wf(),
            final(self)@ == old(self)@.update(
                index_of(old(self)@, id@),
                ColumnModel {
                    excluded: toggled(old(self)@[index_of(old(self)@, id@)].excluded, value@),
                    ..old(self)@[index_of(old(self)@, id@)]
                },
            ),
    {
        let k = self.position(id).unwrap();
        let ghost before = self.column_filters@;
        let ghost old_view = self@;
        self.column_filters[k].toggle_value(value);
        proof {
            self.lemma_updated(before, old_view, k as int);
        }
    }

    /// Replaces the pending search text of column `id`.
    pub fn set_search_text(&mut self, id: &str, text: &str)
        requires
            old(self).wf(),
            has_id(old(self)@, id@),
        ensures
            final(self).wf(),
            final(self)@ == old(self)@.update(
                index_of(old(self)@, id@),
                ColumnModel { search: text@, ..old(self)@[index_of(old(self)@, id@)] },
            ),
    {
        let k = self.position(id).unwrap();
        let ghost before = self.column_filters@;
        let ghost old_view = self@;
        self.column_filters[k].set_search_text(text);
        proof {
            self.lemma_updated(before, old_view, k as int);
        }
    }

    /// Commits the pending search text of column `id` over `data`.
    pub fn apply_search(&mut self, id: &str, data: &Vec<Vec<Cell>>)
        requires
            old(self).wf(),
            has_id(old(self)@, id@),
            data_fits(old(self)@, data@),
        ensures
            final(self).wf(),
            final(self)@ == old(self)@.update(
                index_of(old(self)@, id@),
                ColumnModel {
                    excluded: after_apply_search(
                        old(self)@[index_of(old(self)@, id@)].excluded,
                        old(self)@[index_of(old(self)@, id@)].grammar,
                        old(self)@[index_of(old(self)@, id@)].search,
                        data@,
                        index_of(old(self)@, id@) as nat,
                    ),
                    ..old(self)@[index_of(old(self)@, id@)]
                },
            ),
    {
        let k = self.position(id).unwrap();
        proof {
            self.lemma_rows_fit(data@, k as int);
        }
        let ghost before = self.column_filters@;
        let ghost old_view = self@;
        self.column_filters[k].apply_search(data);
        proof {
            self.lemma_updated(before, old_view, k as int);
        }
    }

    /// Shows every value of column `id` in `data`.
    pub fn select_all(&mut self, id: &str, data: &Vec<Vec<Cell>>)
        requires
            old(self).wf(),
            has_id(old(self)@, id@),
            data_fits(old(self)@, data@),
        ensures
            final(self).wf(),
            final(self)@ == old(self)@.update(
                index_of(old(self)@, id@),
                ColumnModel {
                    excluded: after_select_all(
                        old(self)@[index_of(old(self)@, id@)].excluded,
                        data@,
                        index_of(old(self)@, id@) as nat,
                    ),
                    ..old(self)@[index_of(old(self)@, id@)]
                },
            ),
    {
        let k = self.position(id).unwrap();
        proof {
            self.lemma_rows_fit(data@, k as int);
        }
        let ghost before = self.column_filters@;
        let ghost old_view = self@;
        self.column_filters[k].select_all(data);
        proof {
            self.lemma_updated(before, old_view, k as int);
        }
    }

    /// Hides every value of column `id` in `data`.
    pub fn select_none(&mut self, id: &str, data: &Vec<Vec<Cell>>)
        requires
            old(self).wf(),
            has_id(old(self)@, id@),
            data_fits(old(self)@, data@),
        ensures
            final(self).wf(),
            final(self)@ == old(self)@.update(
                index_of(old(self)@, id@),
                ColumnModel {
                    excluded: after_select_none(
                        old(self)@[index_of(old(self)@, id@)].excluded,
                        data@,
                        index_of(old(self)@, id@) as nat,
                    ),
                    ..old(self)@[index_of(old(self)@, id@)]
                },
            ),
    {
        let k = self.position(id).unwrap();
        proof {
            self.lemma_rows_fit(data@, k as int);
        }
        let ghost before = self.column_filters@;
        let ghost old_view = self@;
        self.column_filters[k].select_none(data);
        proof {
            self.lemma_updated(before, old_view, k as int);
        }
    }

    /// Clears the search text and the hidden values of every column.
    pub fn reset_all(&mut self)
        requires
            old(self).wf(),
        ensures
            final(self).wf(),
            final(self)@.len() == old(self)@.len(),
            forall|k: int|
                0 <= k < old(self)@.len() ==> #[trigger] final(self)@[k] == (ColumnModel {
                    search: Seq::<char>::empty(),
                    excluded: Set::<ScalarModel>::empty(),
                    ..old(self)@[k]
                }),
    {
        let ghost start = self@;
        let mut k: usize = 0;
        while k < self.column_filters.len()
            invariant
                self.wf(),
                self@.len() == start.len(),
                k <= start.len(),
                forall|j: int|
                    0 <= j < k ==> #[trigger] self@[j] == (ColumnModel {
                        search: Seq::<char>::empty(),
                        excluded: Set::<ScalarModel>::empty(),
                        ..start[j]
                    }),
                forall|j: int| k <= j < start.len() ==> #[trigger] self@[j] == start[j],
            decreases start.len() - k,
        {
            let ghost before = self.column_filters@;
            let ghost old_view = self@;
            self.column_filters[k].reset();
            proof {
                self.lemma_updated(before, old_view, k as int);
                assert(old_view[k as int] == before[k as int]@);
                assert(self@[k as int] == (ColumnModel {
                    search: Seq::<char>::empty(),
                    excluded: Set::<ScalarModel>::empty(),
                    ..start[k as int]
                }));
            }
            k = k + 1;
        }
    }

    /// Carries out `cmd`, issued from the menu of column `id`, to the end
    /// before returning.
    pub fn apply_command(&mut self, id: &str, cmd: FilterCommand, data: &Vec<Vec<Cell>>)
        requires
            old(self).wf(),
            has_id(old(self)@, id@),
            data_fits(old(self)@, data@),
        ensures
            final(self).wf(),
            final(self)@ == after_command(old(self)@, index_of(old(self)@, id@), cmd, data@),
    {
        let ghost start = self@;
        match cmd {
            FilterCommand::ToggleValue(v) => self.toggle_value(id, v),
            FilterCommand::SetSearchText(text) => self.set_search_text(id, text.as_str()),
            FilterCommand::ApplySearch => self.apply_search(id, data),
            FilterCommand::SelectAll => self.select_all(id, data),
            FilterCommand::SelectNone => self.select_none(id, data),
            FilterCommand::Reset => {
                self.reset_all();
                assert(self@ =~= after_command(start, index_of(start, id@), FilterCommand::Reset, data@));
            },
        }
    }

    /// Column `k` fits every row that the whole table fits.
    proof fn lemma_rows_fit(&self, data: Seq<Vec<Cell>>, k: int)
        requires
            self.wf(),
            0 <= k < self@.len(),
            data_fits(self@, data),
        ensures
            rows_fit(data, self.column_filters@[k]@.column),
    {
        assert(self@[k] == self.column_filters@[k]@);
        assert forall|i: int| 0 <= i < data.len() implies self.column_filters@[k]@.column < (
        #[trigger] data[i])@.len() by {
            assert(row_fits(self@, data[i]@));
        }
    }

    /// Replacing column `k` by a well-formed filter with the same id and
    /// position keeps the table well formed, and changes its view at `k`
    /// alone.
    proof fn lemma_updated(&self, before: Seq<ColumnFilterImpl>, old_view: Seq<ColumnModel>, k: int)
        requires
            0 <= k < before.len(),
            self.column_filters@ == before.update(k, self.column_filters@[k]),
            self.column_filters@[k].wf(),
            self.column_filters@[k]@.id == before[k]@.id,
            self.column_filters@[k]@.column == before[k]@.column,
            forall|j: int| 0 <= j < before.len() ==> (#[trigger] before[j]).wf(),
            old_view == before.map_values(|c: ColumnFilterImpl| c@),
            forall|j: int| 0 <= j < old_view.len() ==> (#[trigger] old_view[j]).column == j,
            forall|i: int, j: int| 0 <= i < j < old_view.len() ==> old_view[i].id != old_view[j].id,
        ensures
            self.wf(),
            self@ == old_view.update(k, self.column_filters@[k]@),
    {
        assert(self@ =~= old_view.update(k, self.column_filters@[k]@));
        assert(old_view[k] == before[k]@);
    }
}

} // verus!
