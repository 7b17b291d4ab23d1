use vstd::prelude::*;

use crate::pattern::{
    pattern_matches, BoolColumnFilter, ColumnFilter, I32ColumnFilter, KindModel, MemberColumnFilter,
    NaiveDateColumnFilter,
    StringColumnFilter, U32ColumnFilter,
};
use crate::value::{Cell, ScalarModel, ScalarValue};

verus! {

/// The kind of a column, which fixes its search grammar.
pub enum ColumnKind {
    Text(StringColumnFilter),
    Unsigned(U32ColumnFilter),
    Signed(I32ColumnFilter),
    Date(NaiveDateColumnFilter),
    Boolean(BoolColumnFilter),
    Member(MemberColumnFilter),
}

impl ColumnFilter for ColumnKind {
    open spec fn grammar(&self) -> KindModel {
        match self {
            ColumnKind::Text(f) => f.grammar(),
            ColumnKind::Unsigned(f) => f.grammar(),
            ColumnKind::Signed(f) => f.grammar(),
            ColumnKind::Date(f) => f.grammar(),
            ColumnKind::Boolean(f) => f.grammar(),
            ColumnKind::Member(f) => f.grammar(),
        }
    }

    open spec fn id_view(&self) -> Seq<char> {
        match self {
            ColumnKind::Text(f) => f.id_view(),
            ColumnKind::Unsigned(f) => f.id_view(),
            ColumnKind::Signed(f) => f.id_view(),
            ColumnKind::Date(f) => f.id_view(),
            ColumnKind::Boolean(f) => f.id_view(),
            ColumnKind::Member(f) => f.id_view(),
        }
    }

    fn id(&self) -> (r: &str) {
        match self {
            ColumnKind::Text(f) => f.id(),
            ColumnKind::Unsigned(f) => f.id(),
            ColumnKind::Signed(f) => f.id(),
            ColumnKind::Date(f) => f.id(),
            ColumnKind::Boolean(f) => f.id(),
            ColumnKind::Member(f) => f.id(),
        }
    }

    fn search_pattern(&self, pattern: &str, target: &str) -> (r: bool) {
        match self {
            ColumnKind::Text(f) => f.search_pattern(pattern, target),
            ColumnKind::Unsigned(f) => f.search_pattern(pattern, target),
            ColumnKind::Signed(f) => f.search_pattern(pattern, target),
            ColumnKind::Date(f) => f.search_pattern(pattern, target),
            ColumnKind::Boolean(f) => f.search_pattern(pattern, target),
            ColumnKind::Member(f) => f.search_pattern(pattern, target),
        }
    }
}

/// What a column filter is: its id, grammar and position in the row, its
/// pending search text and the set of values it hides.
pub struct ColumnModel {
    pub id: Seq<char>,
    pub grammar: KindModel,
    pub column: nat,
    pub search: Seq<char>,
    pub excluded: Set<ScalarModel>,
}

/// Column `c` keeps the row `row`: the row's value is not hidden.
pub open spec fn keeps(c: ColumnModel, row: Seq<Cell>) -> bool {
    !c.excluded.contains(row[c.column as int].value@)
}

/// The values that a sequence of scalars holds.
pub open spec fn value_set(s: Seq<ScalarValue>) -> Set<ScalarModel> {
    Set::new(|m: ScalarModel| exists|i: int| 0 <= i < s.len() && #[trigger] s[i]@ == m)
}

/// No value occurs twice.
pub open spec fn distinct_values(s: Seq<ScalarValue>) -> bool {
    forall|i: int, j: int| 0 <= i < j < s.len() ==> s[i]@ != s[j]@
}

/// Every row has a cell for column `col`.
pub open spec fn rows_fit(data: Seq<Vec<Cell>>, col: nat) -> bool {
    forall|i: int| 0 <= i < data.len() ==> col < (#[trigger] data[i])@.len()
}

/// The value of row `i` in column `col`.
pub open spec fn cell_value(data: Seq<Vec<Cell>>, i: int, col: nat) -> ScalarModel {
    data[i]@[col as int].value@
}

/// The values that column `col` holds over the rows `data`.
pub open spec fn column_values(data: Seq<Vec<Cell>>, col: nat) -> Set<ScalarModel> {
    Set::new(|m: ScalarModel| exists|i: int| 0 <= i < data.len() && cell_value(data, i, col) == m)
}

/// The values of column `col` borne by at least one row whose displayed
/// text `search` matches under grammar `k`.
pub open spec fn search_hits(
    k: KindModel,
    search: Seq<char>,
    data: Seq<Vec<Cell>>,
    col: nat,
) -> Set<ScalarModel> {
    Set::new(
        |m: ScalarModel|
            exists|i: int|
                0 <= i < data.len() && cell_value(data, i, col) == m && pattern_matches(
                    k,
                    search,
                    data[i]@[col as int].display@,
                ),
    )
}

/// The exclusion set after one value is toggled.
pub open spec fn toggled(excluded: Set<ScalarModel>, v: ScalarModel) -> Set<ScalarModel> {
    if excluded.contains(v) {
        excluded.remove(v)
    } else {
        excluded.insert(v)
    }
}

/// The exclusion set after the search text is applied: with an empty
/// search nothing changes; otherwise each value of the column is hidden
/// exactly when no row bearing it matches, and other values keep their
/// state.
pub open spec fn after_apply_search(
    excluded: Set<ScalarModel>,
    k: KindModel,
    search: Seq<char>,
    data: Seq<Vec<Cell>>,
    col: nat,
) -> Set<ScalarModel> {
    if search.len() == 0 {
        excluded
    } else {
        excluded.union(column_values(data, col)).difference(search_hits(k, search, data, col))
    }
}

/// The exclusion set after every value of the column is selected.
pub open spec fn after_select_all(
    excluded: Set<ScalarModel>,
    data: Seq<Vec<Cell>>,
    col: nat,
) -> Set<ScalarModel> {
    excluded.difference(column_values(data, col))
}

/// The exclusion set after every value of the column is deselected.
pub open spec fn after_select_none(
    excluded: Set<ScalarModel>,
    data: Seq<Vec<Cell>>,
    col: nat,
) -> Set<ScalarModel> {
    excluded.union(column_values(data, col))
}

/// Adding the row at `i - 1` to the rows before it adds its value to the
/// column's values.
pub proof fn lemma_column_values_step(data: Seq<Vec<Cell>>, i: int, col: nat)
    requires
        0 < i <= data.len(),
    ensures
        column_values(data.take(i), col) =~= column_values(data.take(i - 1), col).insert(
            cell_value(data, i - 1, col),
        ),
{
    let after = data.take(i);
    let before = data.take(i - 1);
    assert forall|m: ScalarModel| #[trigger] column_values(after, col).contains(m) implies column_values(
        before,
        col,
    ).insert(cell_value(data, i - 1, col)).contains(m) by {
        let j = choose|j: int| 0 <= j < after.len() && cell_value(after, j, col) == m;
        if j < i - 1 {
            assert(cell_value(before, j, col) == m);
        }
    }
    assert forall|m: ScalarModel| #[trigger] column_values(before, col).insert(
        cell_value(data, i - 1, col),
    ).contains(m) implies column_values(after, col).contains(m) by {
        if m == cell_value(data, i - 1, col) {
            assert(cell_value(after, i - 1, col) == m);
        } else {
            let j = choose|j: int| 0 <= j < before.len() && cell_value(before, j, col) == m;
            assert(cell_value(after, j, col) == m);
        }
    }
}

/// Adding the row at `i - 1` to the rows before it adds its value to the
/// search hits exactly when its displayed text matches.
pub proof fn lemma_search_hits_step(k: KindModel, search: Seq<char>, data: Seq<Vec<Cell>>, i: int, col: nat)
    requires
        0 < i <= data.len(),
    ensures
        search_hits(k, search, data.take(i), col) =~= if pattern_matches(
            k,
            search,
            data[i - 1]@[col as int].display@,
        ) {
            search_hits(k, search, data.take(i - 1), col).insert(cell_value(data, i - 1, col))
        } else {
            search_hits(k, search, data.take(i - 1), col)
        },
{
    let after = data.take(i);
    let before = data.take(i - 1);
    let now = search_hits(k, search, after, col);
    let was = search_hits(k, search, before, col);
    assert forall|j: int| 0 <= j < before.len() implies #[trigger] after[j] == before[j] by {}
    assert forall|m: ScalarModel| #[trigger] now.contains(m) && m != cell_value(data, i - 1, col)
        implies was.contains(m) by {
        let j = choose|j: int|
            0 <= j < after.len() && cell_value(after, j, col) == m && pattern_matches(
                k,
                search,
                after[j]@[col as int].display@,
            );
        assert(cell_value(before, j, col) == m);
    }
    assert forall|m: ScalarModel| #[trigger] was.contains(m) implies now.contains(m) by {
        let j = choose|j: int|
            0 <= j < before.len() && cell_value(before, j, col) == m && pattern_matches(
                k,
                search,
                before[j]@[col as int].display@,
            );
        assert(cell_value(after, j, col) == m);
    }
    if pattern_matches(k, search, data[i - 1]@[col as int].display@) {
        assert(now.contains(cell_value(data, i - 1, col))) by {
            assert(cell_value(after, i - 1, col) == cell_value(data, i - 1, col));
        }
    } else {
        assert forall|m: ScalarModel| #[trigger] now.contains(m) implies was.contains(m) by {
            let j = choose|j: int|
                0 <= j < after.len() && cell_value(after, j, col) == m && pattern_matches(
                    k,
                    search,
                    after[j]@[col as int].display@,
                );
            assert(j < i - 1);
            assert(cell_value(before, j, col) == m);
        }
    }
}

/// The filter of one column: its kind and position in the row, the
/// pending search text, and the values it hides.
pub struct ColumnFilterImpl {
    kind: ColumnKind,
    column: usize,
    search_field: String,
    unselected_values: Vec<ScalarValue>,
}

impl View for ColumnFilterImpl {
    type V = ColumnModel;

    closed spec fn view(&self) -> ColumnModel {
        ColumnModel {
            id: self.kind.id_view(),
            grammar: self.kind.grammar(),
            column: self.column as nat,
            search: self.search_field@,
            excluded: value_set(self.unselected_values@),
        }
    }
}

impl ColumnFilterImpl {
    /// The filter holds each hidden value once.
    pub closed spec fn wf(&self) -> bool {
        distinct_values(self.unselected_values@)
    }

    /// A filter for the column at position `column` of each row, with no
    /// hidden value and no search text.
    pub fn new(kind: ColumnKind, column: usize) -> (r: ColumnFilterImpl)
        ensures
            r.wf(),
            r@.id == kind.id_view(),
            r@.grammar == kind.grammar(),
            r@.column == column,
            r@.search.len() == 0,
            r@.excluded == Set::<ScalarModel>::empty(),
    {
        let r = ColumnFilterImpl {
            kind,
            column,
            search_field: String::new(),
            unselected_values: Vec::new(),
        };
        assert(r@.excluded =~= Set::<ScalarModel>::empty());
        r
    }

    /// The column's id.
    pub fn id(&self) -> (r: &str)
        ensures
            r@ == self@.id,
    {
        self.kind.id()
    }

    /// The position of this column's cell in each row.
    pub fn column(&self) -> (r: usize)
        ensures
            r == self@.column,
    {
        self.column
    }

    /// The pending search text.
    pub fn search_text(&self) -> (r: &str)
        ensures
            r@ == self@.search,
    {
        self.search_field.as_str()
    }

    /// The value of this column in `row`.
    pub fn get_value(&self, row: &Vec<Cell>) -> (r: ScalarValue)
        requires
            self@.column < row@.len(),
        ensures
            r@ == row@[self@.column as int].value@,
    {
        row[self.column].value.duplicate()
    }

    /// The displayed text of this column in `row`.
    pub fn get_string_value(&self, row: &Vec<Cell>) -> (r: String)
        requires
            self@.column < row@.len(),
        ensures
            r@ == row@[self@.column as int].display@,
    {
        row[self.column].display.clone()
    }

    /// Whether `pattern` matches the displayed text `target` in this
    /// column's grammar.
    pub fn search_pattern(&self, pattern: &str, target: &str) -> (r: bool)
        ensures
            r == pattern_matches(self@.grammar, pattern@, target@),
    {
        self.kind.search_pattern(pattern, target)
    }

    /// Whether the filter hides any value.
    pub fn is_active(&self) -> (r: bool)
        ensures
            r == !self@.excluded.is_empty(),
    {
        if self.unselected_values.len() == 0 {
            assert(self@.excluded =~= Set::<ScalarModel>::empty());
            false
        } else {
            assert(self@.excluded.contains(self.unselected_values@[0]@));
            true
        }
    }

    /// The position of `v` among the hidden values, if it is hidden.
    fn find(&self, v: &ScalarValue) -> (r: Option<usize>)
        ensures
            match r {
                Some(i) => i < self.unselected_values@.len() && self.unselected_values@[i as int]@
                    == v@,
                None => !self@.excluded.contains(v@),
            },
    {
        let mut i: usize = 0;
        while i < self.unselected_values.len()
            invariant
                i <= self.unselected_values@.len(),
                forall|j: int| 0 <= j < i ==> self.unselected_values@[j]@ != v@,
            decreases self.unselected_values@.len() - i,
        {
            if self.unselected_values[i].same_as(v) {
                return Some(i);
            }
            i = i + 1;
        }
        None
    }

    /// Whether `value` is shown, that is, not hidden by this filter.
    pub fn contains(&self, value: &ScalarValue) -> (r: bool)
        ensures
            r == !self@.excluded.contains(value@),
    {
        match self.find(value) {
            Some(_) => false,
            None => true,
        }
    }

    /// Whether this filter keeps `row`: its value is not hidden.
    pub fn evaluate(&self, row: &Vec<Cell>) -> (r: bool)
        requires
            self@.column < row@.len(),
        ensures
            r == keeps(self@, row@),
            self@.excluded.is_empty() ==> r,
    {
        self.contains(&row[self.column].value)
    }

    /// Hides `v`.
    fn exclude(&mut self, v: ScalarValue)
        requires
            old(self).wf(),
        ensures
            final(self).wf(),
            final(self)@ == (ColumnModel { excluded: old(self)@.excluded.insert(v@), ..old(self)@ }),
    {
        match self.find(&v) {
            Some(_) => {
                assert(self@.excluded.insert(v@) =~= self@.excluded);
            },
            None => {
                let ghost before = self.unselected_values@;
                self.unselected_values.push(v);
                assert(value_set(self.unselected_values@) =~= value_set(before).insert(before.push(v)[before.len() as int]@)) by {
                    assert forall|m: ScalarModel| #[trigger] value_set(self.unselected_values@).contains(m)
                        implies value_set(before).insert(v@).contains(m) by {
                        let i = choose|i: int| 0 <= i < self.unselected_values@.len() && self.unselected_values@[i]@ == m;
                        if i < before.len() {
                            assert(before[i]@ == m);
                        }
                    }
                    assert forall|m: ScalarModel| #[trigger] value_set(before).insert(v@).contains(m)
                        implies value_set(self.unselected_values@).contains(m) by {
                        if m == v@ {
                            assert(self.unselected_values@[before.len() as int]@ == m);
                        } else {
                            let i = choose|i: int| 0 <= i < before.len() && before[i]@ == m;
                            assert(self.unselected_values@[i]@ == m);
                        }
                    }
                }
            },
        }
    }

    /// Shows `v` again.
    fn reinstate(&mut self, v: &ScalarValue)
        requires
            old(self).wf(),
        ensures
            final(self).wf(),
            final(self)@ == (ColumnModel { excluded: old(self)@.excluded.remove(v@), ..old(self)@ }),
    {
        match self.find(v) {
            None => {
                assert(self@.excluded.remove(v@) =~= self@.excluded);
            },
            Some(at) => {
                let ghost before = self.unselected_values@;
                self.unselected_values.remove(at);
                let ghost after = self.unselected_values@;
                assert(after =~= before.remove(at as int));
                assert(value_set(after) =~= value_set(before).remove(v@)) by {
                    assert forall|m: ScalarModel| #[trigger] value_set(after).contains(m)
                        implies value_set(before).remove(v@).contains(m) by {
                        let i = choose|i: int| 0 <= i < after.len() && after[i]@ == m;
                        if i < at {
                            assert(before[i]@ == m);
                        } else {
                            assert(before[i + 1]@ == m);
                        }
                    }
                    assert forall|m: ScalarModel| #[trigger] value_set(before).remove(v@).contains(m)
                        implies value_set(after).contains(m) by {
                        let i = choose|i: int| 0 <= i < before.len() && before[i]@ == m;
                        if i < at {
                            assert(after[i]@ == m);
                        } else {
                            assert(i != at);
                            assert(after[i - 1]@ == m);
                        }
                    }
                }
            },
        }
    }

    /// Replaces the pending search text; nothing is hidden or shown until
    /// it is applied.
    pub fn set_search_text(&mut self, text: &str)
        requires
            old(self).wf(),
        ensures
            final(self).wf(),
            final(self)@ == (ColumnModel { search: text@, ..old(self)@ }),
    {
        self.search_field = text.to_owned();
    }

    /// Hides `value` if it is shown, and shows it if it is hidden.
    pub fn toggle_value(&mut self, value: ScalarValue)
        requires
            old(self).wf(),
        ensures
            final(self).wf(),
            final(self)@ == (ColumnModel {
                excluded: toggled(old(self)@.excluded, value@),
                ..old(self)@
            }),
    {
        if self.contains(&value) {
            self.exclude(value);
        } else {
            self.reinstate(&value);
        }
    }

    /// Hides every value that column holds in `data`.
    pub fn select_none(&mut self, data: &Vec<Vec<Cell>>)
        requires
            old(self).wf(),
            rows_fit(data@, old(self)@.column),
        ensures
            final(self).wf(),
            final(self)@ == (ColumnModel {
                excluded: after_select_none(old(self)@.excluded, data@, old(self)@.column),
                ..old(self)@
            }),
    {
        let ghost start = self@;
        let mut i: usize = 0;
        assert(column_values(data@.take(0), start.column) =~= Set::<ScalarModel>::empty());
        assert(after_select_none(start.excluded, data@.take(0), start.column) =~= start.excluded);
        while i < data.len()
            invariant
                self.wf(),
                rows_fit(data@, start.column),
                i <= data@.len(),
                self@ == (ColumnModel {
                    excluded: after_select_none(start.excluded, data@.take(i as int), start.column),
                    ..start
                }),
            decreases data@.len() - i,
        {
            let v = self.get_value(&data[i]);
            self.exclude(v);
            i = i + 1;
            proof {
                lemma_column_values_step(data@, i as int, start.column);
            }
            assert(self@.excluded =~= after_select_none(start.excluded, data@.take(i as int), start.column));
        }
        assert(data@.take(i as int) =~= data@);
    }

    /// Shows every value that column holds in `data`.
    pub fn select_all(&mut self, data: &Vec<Vec<Cell>>)
        requires
            old(self).wf(),
            rows_fit(data@, old(self)@.column),
        ensures
            final(self).wf(),
            final(self)@ == (ColumnModel {
                excluded: after_select_all(old(self)@.excluded, data@, old(self)@.column),
                ..old(self)@
            }),
    {
        let ghost start = self@;
        let mut i: usize = 0;
        assert(column_values(data@.take(0), start.column) =~= Set::<ScalarModel>::empty());
        assert(after_select_all(start.excluded, data@.take(0), start.column) =~= start.excluded);
        while i < data.len()
            invariant
                self.wf(),
                rows_fit(data@, start.column),
                i <= data@.len(),
                self@ == (ColumnModel {
                    excluded: after_select_all(start.excluded, data@.take(i as int), start.column),
                    ..start
                }),
            decreases data@.len() - i,
        {
            let v = self.get_value(&data[i]);
            self.reinstate(&v);
            i = i + 1;
            proof {
                lemma_column_values_step(data@, i as int, start.column);
            }
            assert(self@.excluded =~= after_select_all(start.excluded, data@.take(i as int), start.column));
        }
        assert(data@.take(i as int) =~= data@);
    }

    /// Commits the pending search text: each value of the column in `data`
    /// is shown when at least one row bearing it matches the search text,
    /// and hidden otherwise.  With an empty search text nothing changes.
    pub fn apply_search(&mut self, data: &Vec<Vec<Cell>>)
        requires
            old(self).wf(),
            rows_fit(data@, old(self)@.column),
        ensures
            final(self).wf(),
            final(self)@ == (ColumnModel {
                excluded: after_apply_search(
                    old(self)@.excluded,
                    old(self)@.grammar,
                    old(self)@.search,
                    data@,
                    old(self)@.column,
                ),
                ..old(self)@
            }),
            old(self)@.search.len() == 0 ==> final(self)@ == old(self)@,
    {
        if self.search_field.as_str().unicode_len() == 0 {
            return;
        }
        let ghost start = self@;
        self.select_none(data);
        let ghost hidden = self@.excluded;
        let mut i: usize = 0;
        let ghost none = search_hits(start.grammar, start.search, data@.take(0), start.column);
        assert(none =~= Set::<ScalarModel>::empty());
        assert(hidden.difference(none) =~= hidden);
        while i < data.len()
            invariant
                self.wf(),
                rows_fit(data@, start.column),
                i <= data@.len(),
                hidden == after_select_none(start.excluded, data@, start.column),
                self@ == (ColumnModel {
                    excluded: hidden.difference(
                        search_hits(start.grammar, start.search, data@.take(i as int), start.column),
                    ),
                    ..start
                }),
            decreases data@.len() - i,
        {
            let display = data[i][self.column].display.as_str();
            let hit = self.kind.search_pattern(self.search_field.as_str(), display);
            proof {
                lemma_search_hits_step(start.grammar, start.search, data@, i + 1, start.column);
            }
            if hit {
                let v = self.get_value(&data[i]);
                self.reinstate(&v);
            }
            i = i + 1;
            assert(self@.excluded =~= hidden.difference(
                search_hits(start.grammar, start.search, data@.take(i as int), start.column),
            ));
        }
        assert(data@.take(i as int) =~= data@);
    }

    /// Clears the search text and shows every value.
    pub fn reset(&mut self)
        requires
            old(self).wf(),
        ensures
            final(self).wf(),
            final(self)@ == (ColumnModel {
                search: Seq::<char>::empty(),
                excluded: Set::<ScalarModel>::empty(),
                ..old(self)@
            }),
    {
        self.search_field = String::new();
        self.unselected_values = Vec::new();
        assert(self@.excluded =~= Set::<ScalarModel>::empty());
    }

    /// For each row of `data`, whether this filter keeps it.
    pub fn get_eval_bool_array(&self, data: &Vec<Vec<Cell>>) -> (r: Vec<bool>)
        requires
            rows_fit(data@, self@.column),
        ensures
            r@.len() == data@.len(),
            forall|i: int| 0 <= i < data@.len() ==> r@[i] == !self@.excluded.contains(
                cell_value(data@, i, self@.column),
            ),
    {
        let mut r: Vec<bool> = Vec::new();
        let mut i: usize = 0;
        while i < data.len()
            invariant
                rows_fit(data@, self@.column),
                i <= data@.len(),
                r@.len() == i,
                forall|j: int| 0 <= j < i ==> r@[j] == !self@.excluded.contains(
                    cell_value(data@, j, self@.column),
                ),
            decreases data@.len() - i,
        {
            r.push(self.evaluate(&data[i]));
            i = i + 1;
        }
        r
    }
}

} // verus!
