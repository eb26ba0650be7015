use vstd::prelude::*;

verus! {

/// Every way that loading a validated mapping can fail at run time.
#[derive(Debug)]
pub enum Error {
    /// A label present in the external table has no corresponding variant.
    NotDefinedInCode,
    /// A variant's label has no corresponding row in the external table.
    NotFoundInDb,
    /// The data source itself failed, with a diagnostic message.
    DataSource(String),
}

/// The contract a symbolic-value type exposes once its variant set is bound to
/// labels: enumerate all labels, variant to label, label back to variant.
pub trait Enum: Sized {
    /// The bound labels, one per variant, in definition order.
    spec fn spec_labels() -> Seq<Seq<char>>;

    /// The label this variant is bound to.
    spec fn spec_label(self) -> Seq<char>;

    /// The binding laws: labels are pairwise distinct, every variant carries a
    /// bound label, distinct variants carry distinct labels, and every bound
    /// label belongs to some variant.
    proof fn lemma_well_formed()
        ensures
            forall|i: int, j: int|
                0 <= i < j < Self::spec_labels().len() ==> Self::spec_labels()[i]
                    != Self::spec_labels()[j],
            forall|v: Self| Self::spec_labels().contains(v.spec_label()),
            forall|v: Self, w: Self| v.spec_label() == w.spec_label() ==> v == w,
            forall|i: int|
                0 <= i < Self::spec_labels().len() ==> exists|v: Self|
                    v.spec_label() == #[trigger] Self::spec_labels()[i],
    ;

    /// The label bound to this variant.
    fn value(&self) -> (r: String)
        ensures
            r@ == self.spec_label(),
    ;

    /// The variant bound to a label.  Total only over the bound label set:
    /// callers must pre-validate membership, or go through a loaded `Mapping`.
    fn from_value(s: &str) -> (r: Self)
        requires
            exists|v: Self| v.spec_label() == s@,
        ensures
            r.spec_label() == s@,
    ;

    /// The complete set of bound labels, one per variant.
    fn values() -> (r: Vec<String>)
        ensures
            r@.map_values(|s: String| s@) == Self::spec_labels(),
    ;
}

/// The external-loading contract: one call yields the whole raw id-to-label
/// table, or fails.  Nothing is promised of the outcome; a `Mapping` validates
/// whatever comes back before serving lookups.
pub trait DataSource {
    /// Fetch the raw `(id, label)` rows, or report why they cannot be had.
    fn load(&self) -> Result<Vec<(i64, String)>, Error>;
}

/// The id-to-label views of raw rows.
pub open spec fn row_views(rows: Seq<(i64, String)>) -> Seq<(i64, Seq<char>)> {
    rows.map_values(|p: (i64, String)| (p.0, p.1@))
}

/// The working table a row sequence describes: later rows win on a repeated id.
pub open spec fn table_of(rows: Seq<(i64, Seq<char>)>) -> Map<i64, Seq<char>>
    decreases rows.len(),
{
    if rows.len() == 0 {
        Map::empty()
    } else {
        table_of(rows.drop_last()).insert(rows.last().0, rows.last().1)
    }
}

/// An id is in the working table exactly when some row carries it.
proof fn lemma_table_dom(rows: Seq<(i64, Seq<char>)>)
    ensures
        forall|k: i64| #[trigger]
            table_of(rows).dom().contains(k) <==> exists|i: int|
                0 <= i < rows.len() && rows[i].0 == k,
    decreases rows.len(),
{
    if rows.len() > 0 {
        let prev = rows.drop_last();
        lemma_table_dom(prev);
        assert forall|k: i64| #[trigger]
            table_of(rows).dom().contains(k) <==> exists|i: int|
                0 <= i < rows.len() && rows[i].0 == k by {
            if table_of(rows).dom().contains(k) {
                if k == rows.last().0 {
                    assert(rows[rows.len() - 1].0 == k);
                } else {
                    assert(table_of(prev).dom().contains(k));
                    let i = choose|i: int| 0 <= i < prev.len() && prev[i].0 == k;
                    assert(prev[i] == rows[i]);
                    assert(rows[i].0 == k);
                }
            }
            if exists|i: int| 0 <= i < rows.len() && rows[i].0 == k {
                let i = choose|i: int| 0 <= i < rows.len() && rows[i].0 == k;
                if i < rows.len() - 1 {
                    assert(prev[i] == rows[i]);
                    assert(prev[i].0 == k);
                    assert(table_of(prev).dom().contains(k));
                }
            }
        }
    }
}

/// A row with no later row carrying the same id decides that id's table entry.
proof fn lemma_table_last(rows: Seq<(i64, Seq<char>)>)
    ensures
        forall|i: int|
            0 <= i < rows.len() && (forall|j: int|
                i < j < rows.len() ==> (#[trigger] rows[j].0) != rows[i].0) ==> {
                &&& table_of(rows).dom().contains(#[trigger] rows[i].0)
                &&& table_of(rows)[rows[i].0] == rows[i].1
            },
    decreases rows.len(),
{
    if rows.len() > 0 {
        let prev = rows.drop_last();
        lemma_table_last(prev);
        assert forall|i: int|
            0 <= i < rows.len() && (forall|j: int|
                i < j < rows.len() ==> (#[trigger] rows[j].0) != rows[i].0) implies {
            &&& table_of(rows).dom().contains(#[trigger] rows[i].0)
            &&& table_of(rows)[rows[i].0] == rows[i].1
        } by {
            if i < rows.len() - 1 {
                assert(rows[rows.len() - 1].0 != rows[i].0);
                assert(prev[i].0 == rows[i].0 && prev[i].1 == rows[i].1);
                assert forall|j: int| i < j < prev.len() implies (#[trigger] prev[j].0)
                    != prev[i].0 by {
                    assert(rows[j].0 != rows[i].0);
                }
                assert(table_of(prev).dom().contains(prev[i].0) && table_of(prev)[prev[i].0]
                    == prev[i].1);
            }
        }
    }
}

/// On rows with pairwise distinct ids, each row decides its id's table entry,
/// and every table entry comes from some row.
proof fn lemma_distinct_lookup(entries: Seq<(i64, String)>)
    requires
        forall|p: int, q: int| 0 <= p < q < entries.len() ==> entries[p].0 != entries[q].0,
    ensures
        forall|j: int|
            0 <= j < entries.len() ==> {
                &&& table_of(row_views(entries)).dom().contains((#[trigger] entries[j]).0)
                &&& table_of(row_views(entries))[entries[j].0] == entries[j].1@
            },
        forall|k: i64| #[trigger]
            table_of(row_views(entries)).dom().contains(k) ==> exists|j: int|
                0 <= j < entries.len() && entries[j].0 == k && entries[j].1@ == table_of(
                    row_views(entries),
                )[k],
{
    let rv = row_views(entries);
    lemma_table_dom(rv);
    lemma_table_last(rv);
    assert forall|j: int| 0 <= j < entries.len() implies {
        &&& table_of(rv).dom().contains((#[trigger] entries[j]).0)
        &&& table_of(rv)[entries[j].0] == entries[j].1@
    } by {
        assert(rv[j].0 == entries[j].0 && rv[j].1 == entries[j].1@);
        assert forall|b: int| j < b < rv.len() implies (#[trigger] rv[b].0) != rv[j].0 by {
            assert(entries[b].0 != entries[j].0);
        }
        assert(table_of(rv).dom().contains(rv[j].0) && table_of(rv)[rv[j].0] == rv[j].1);
    }
    assert forall|k: i64| #[trigger] table_of(rv).dom().contains(k) implies exists|j: int|
        0 <= j < entries.len() && entries[j].0 == k && entries[j].1@ == table_of(rv)[k] by {
        let j = choose|i: int| 0 <= i < rv.len() && rv[i].0 == k;
        assert(entries[j].0 == k);
        assert(table_of(rv)[entries[j].0] == entries[j].1@);
    }
}

/// On rows with pairwise distinct ids, the table's label set is exactly the
/// set of labels the rows carry.
proof fn lemma_distinct_values(entries: Seq<(i64, String)>)
    requires
        forall|p: int, q: int| 0 <= p < q < entries.len() ==> entries[p].0 != entries[q].0,
    ensures
        forall|l: Seq<char>| #[trigger]
            table_of(row_views(entries)).values().contains(l) ==> exists|j: int|
                0 <= j < entries.len() && (#[trigger] entries[j]).1@ == l,
        forall|j: int|
            0 <= j < entries.len() ==> table_of(row_views(entries)).values().contains(
                (#[trigger] entries[j]).1@,
            ),
{
    lemma_distinct_lookup(entries);
    assert forall|l: Seq<char>| #[trigger]
        table_of(row_views(entries)).values().contains(l) implies exists|j: int|
        0 <= j < entries.len() && entries[j].1@ == l by {
        let k = choose|k: i64| #[trigger]
            table_of(row_views(entries)).dom().contains(k) && table_of(row_views(entries))[k] == l;
        let j = choose|j: int|
            0 <= j < entries.len() && entries[j].0 == k && entries[j].1@ == table_of(
                row_views(entries),
            )[k];
        assert(entries[j].1@ == l);
    }
    assert forall|j: int| 0 <= j < entries.len() implies table_of(
        row_views(entries),
    ).values().contains((#[trigger] entries[j]).1@) by {
        assert(table_of(row_views(entries)).dom().contains(entries[j].0));
        assert(table_of(row_views(entries))[entries[j].0] == entries[j].1@);
        assert(table_of(row_views(entries)).contains_value(entries[j].1@));
    }
}

/// How a partially deduplicated list relates to the raw rows: every kept entry
/// is the last occurrence of its id among the rows, and every id of the rows
/// not yet scanned (position `i` on) is already kept.
spec fn dedup_rel(rows: Seq<(i64, String)>, working: Seq<(i64, String)>, i: int) -> bool {
    &&& forall|j: int|
        0 <= j < working.len() ==> exists|a: int|
            i <= a < rows.len() && rows[a].0 == working[j].0 && rows[a].1@ == (
            #[trigger] working[j]).1@ && (forall|b: int|
                a < b < rows.len() ==> (#[trigger] rows[b].0) != rows[a].0)
    &&& forall|a: int|
        i <= a < rows.len() ==> exists|j: int|
            0 <= j < working.len() && working[j].0 == (#[trigger] rows[a]).0
}

/// A deduplicated row list that keeps exactly the last occurrence of every id
/// describes the same working table as the raw rows.
#[verifier::rlimit(100)]
proof fn lemma_dedup_table(rows: Seq<(i64, String)>, working: Seq<(i64, String)>)
    requires
        forall|p: int, q: int| 0 <= p < q < working.len() ==> working[p].0 != working[q].0,
        dedup_rel(rows, working, 0),
    ensures
        table_of(row_views(working)) == table_of(row_views(rows)),
{
    lemma_table_dom(row_views(rows));
    lemma_table_last(row_views(rows));
    lemma_distinct_lookup(working);
    assert forall|k: i64| #[trigger]
        table_of(row_views(working)).dom().contains(k) implies table_of(
        row_views(rows),
    ).dom().contains(k) by {
        let j = choose|j: int|
            0 <= j < working.len() && working[j].0 == k && working[j].1@ == table_of(
                row_views(working),
            )[k];
        let a = choose|a: int|
            0 <= a < rows.len() && rows[a].0 == working[j].0 && rows[a].1@ == working[j].1@ && (
            forall|b: int| a < b < rows.len() ==> (#[trigger] rows[b].0) != rows[a].0);
        assert(row_views(rows)[a].0 == k);
    }
    assert forall|k: i64| #[trigger]
        table_of(row_views(rows)).dom().contains(k) implies table_of(
        row_views(working),
    ).dom().contains(k) && table_of(row_views(working))[k] == table_of(row_views(rows))[k] by {
        let a0 = choose|i: int| 0 <= i < row_views(rows).len() && row_views(rows)[i].0 == k;
        assert(rows[a0].0 == k);
        let j = choose|j: int| 0 <= j < working.len() && working[j].0 == rows[a0].0;
        assert(table_of(row_views(working)).dom().contains(working[j].0));
        assert(table_of(row_views(working))[working[j].0] == working[j].1@);
        let a = choose|a: int|
            0 <= a < rows.len() && rows[a].0 == working[j].0 && rows[a].1@ == working[j].1@ && (
            forall|b: int| a < b < rows.len() ==> (#[trigger] rows[b].0) != rows[a].0);
        assert forall|b: int|
            a < b < row_views(rows).len() implies (#[trigger] row_views(rows)[b].0) != row_views(
            rows,
        )[a].0 by {
            assert(rows[b].0 != rows[a].0);
        }
        assert(table_of(row_views(rows)).dom().contains(row_views(rows)[a].0) && table_of(
            row_views(rows),
        )[row_views(rows)[a].0] == row_views(rows)[a].1);
    }
    assert(table_of(row_views(working)) =~= table_of(row_views(rows)));
}

/// Collapse raw rows into a working list with pairwise distinct ids that
/// describes the same table: later rows win on a repeated id.
#[verifier::loop_isolation(false)]
#[verifier::rlimit(100)]
fn dedup_rows(rows: &Vec<(i64, String)>) -> (working: Vec<(i64, String)>)
    ensures
        forall|p: int, q: int| 0 <= p < q < working@.len() ==> working@[p].0 != working@[q].0,
        table_of(row_views(working@)) == table_of(row_views(rows@)),
{
    let n = rows.len();
    let mut working: Vec<(i64, String)> = Vec::new();
    let mut i: usize = n;
    while i > 0
        invariant
            0 <= i <= n,
            forall|p: int, q: int|
                0 <= p < q < working@.len() ==> working@[p].0 != working@[q].0,
            dedup_rel(rows@, working@, i as int),
        decreases i,
    {
        i = i - 1;
        let ghost pre = working@;
        if !contains_id(&working, rows[i].0) {
            working.push((rows[i].0, rows[i].1.clone()));
            proof {
                assert forall|j: int| 0 <= j < working@.len() implies exists|a: int|
                    (i as int) <= a < rows@.len() && rows@[a].0 == working@[j].0 && rows@[a].1@
                        == (#[trigger] working@[j]).1@ && (forall|b: int|
                        a < b < rows@.len() ==> (#[trigger] rows@[b].0) != rows@[a].0) by {
                    if j < pre.len() {
                        assert(pre[j].1@ == pre[j].1@);
                        assert(working@[j] == pre[j]);
                    } else {
                        assert(working@[j].0 == rows@[i as int].0);
                        assert(working@[j].1@ == rows@[i as int].1@);
                        assert forall|b: int|
                            (i as int) < b < rows@.len() implies (#[trigger] rows@[b].0)
                                != rows@[i as int].0 by {
                            assert(rows@[b].0 == rows@[b].0);
                            if rows@[b].0 == rows@[i as int].0 {
                                let jj = choose|jj: int|
                                    0 <= jj < pre.len() && pre[jj].0 == rows@[b].0;
                                assert(false);
                            }
                        }
                    }
                }
                assert forall|a: int| (i as int) <= a < rows@.len() implies exists|j: int|
                    0 <= j < working@.len() && working@[j].0 == (#[trigger] rows@[a]).0 by {
                    if a == i as int {
                        assert(working@[pre.len() as int].0 == rows@[a].0);
                    } else {
                        assert(rows@[a].0 == rows@[a].0);
                        let jj = choose|jj: int|
                            0 <= jj < pre.len() && pre[jj].0 == rows@[a].0;
                        assert(working@[jj] == pre[jj]);
                    }
                }
                assert(dedup_rel(rows@, working@, i as int));
            }
        } else {
            proof {
                assert forall|j: int| 0 <= j < working@.len() implies exists|a: int|
                    (i as int) <= a < rows@.len() && rows@[a].0 == working@[j].0 && rows@[a].1@
                        == (#[trigger] working@[j]).1@ && (forall|b: int|
                        a < b < rows@.len() ==> (#[trigger] rows@[b].0) != rows@[a].0) by {
                    assert(working@[j].1@ == working@[j].1@);
                }
                assert forall|a: int| (i as int) <= a < rows@.len() implies exists|j: int|
                    0 <= j < working@.len() && working@[j].0 == (#[trigger] rows@[a]).0 by {
                    if a != i as int {
                        assert(rows@[a].0 == rows@[a].0);
                    }
                }
                assert(dedup_rel(rows@, working@, i as int));
            }
        }
    }
    proof {
        lemma_dedup_table(rows@, working@);
    }
    working
}

/// The validated bidirectional lookup between external ids, labels, and the
/// variants of `E`.  Constructed only by a validating load; immutable after.
pub struct Mapping<E: Enum> {
    inner: Vec<(i64, String)>,
    _enum_type: core::marker::PhantomData<E>,
}

impl<E: Enum> Mapping<E> {
    /// The immutable id-to-label table backing the mapping.
    pub closed spec fn spec_table(self) -> Map<i64, Seq<char>> {
        table_of(row_views(self.inner@))
    }

    #[verifier::type_invariant]
    closed spec fn wf(self) -> bool {
        &&& forall|i: int, j: int|
            0 <= i < j < self.inner@.len() ==> self.inner@[i].0 != self.inner@[j].0
        &&& forall|i: int|
            0 <= i < self.inner@.len() ==> E::spec_labels().contains(#[trigger] self.inner@[i].1@)
        &&& forall|l: Seq<char>| #[trigger]
            E::spec_labels().contains(l) ==> table_of(row_views(self.inner@)).values().contains(l)
    }

    /// Build and validate the mapping from raw rows: later rows win on a
    /// repeated id; a label unknown to the code refuses the table first, then a
    /// variant without a row; otherwise the table is exactly consistent and
    /// becomes the mapping's backing state.
    #[verifier::loop_isolation(false)]
    #[verifier::rlimit(60)]
    pub fn from_rows(rows: Vec<(i64, String)>) -> (r: Result<Mapping<E>, Error>)
        ensures
            match r {
                Ok(m) => {
                    &&& m.spec_table() == table_of(row_views(rows@))
                    &&& m.spec_table().values() == E::spec_labels().to_set()
                },
                Err(Error::NotDefinedInCode) => exists|l: Seq<char>|
                    table_of(row_views(rows@)).values().contains(l) && !E::spec_labels().contains(
                        l,
                    ),
                Err(Error::NotFoundInDb) => {
                    &&& forall|l: Seq<char>|
                        table_of(row_views(rows@)).values().contains(l) ==> E::spec_labels().contains(l)
                    &&& exists|l: Seq<char>|
                        E::spec_labels().contains(l) && !table_of(row_views(rows@)).values().contains(l)
                },
                Err(Error::DataSource(_)) => false,
            },
    {
        let working = dedup_rows(&rows);
        proof {
            lemma_distinct_lookup(working@);
            lemma_distinct_values(working@);
        }
        let code_labels = E::values();
        let mut j: usize = 0;
        while j < working.len()
            invariant
                forall|k: int|
                    0 <= k < j ==> E::spec_labels().contains((#[trigger] working@[k]).1@),
            decreases working@.len() - j,
        {
            if !contains_label(&code_labels, &working[j].1) {
                proof {
                    assert(table_of(row_views(rows@)).values().contains(working@[j as int].1@));
                    assert(!E::spec_labels().contains(working@[j as int].1@)) by {
                        if E::spec_labels().contains(working@[j as int].1@) {
                            let idx = choose|idx: int|
                                0 <= idx < E::spec_labels().len() && E::spec_labels()[idx]
                                    == working@[j as int].1@;
                            assert(code_labels@.map_values(|s: String| s@)[idx]
                                == code_labels@[idx]@);
                        }
                    }
                }
                return Err(Error::NotDefinedInCode);
            }
            proof {
                let jj = choose|jj: int|
                    0 <= jj < code_labels@.len() && (#[trigger] code_labels@[jj])@ == working@[j as int].1@;
                assert(code_labels@.map_values(|s: String| s@)[jj] == code_labels@[jj]@);
                assert(E::spec_labels().contains(working@[j as int].1@));
            }
            j = j + 1;
        }
        let mut t: usize = 0;
        while t < code_labels.len()
            invariant
                forall|k: int|
                    0 <= k < t ==> exists|w: int|
                        0 <= w < working@.len() && working@[w].1@ == (
                        #[trigger] code_labels@[k])@,
            decreases code_labels@.len() - t,
        {
            if !contains_row_label(&working, &code_labels[t]) {
                proof {
                    let l = code_labels@[t as int]@;
                    assert(code_labels@.map_values(|s: String| s@)[t as int] == l);
                    assert(E::spec_labels().contains(l));
                    assert forall|l2: Seq<char>| #[trigger]
                        table_of(row_views(rows@)).values().contains(
                        l2,
                    ) implies E::spec_labels().contains(l2) by {
                        let w = choose|w: int| 0 <= w < working@.len() && working@[w].1@ == l2;
                        assert(E::spec_labels().contains(working@[w].1@));
                    }
                    assert(!table_of(row_views(rows@)).values().contains(l)) by {
                        if table_of(row_views(rows@)).values().contains(l) {
                            let w = choose|w: int| 0 <= w < working@.len() && working@[w].1@ == l;
                            assert(working@[w].1@ != l);
                        }
                    }
                }
                return Err(Error::NotFoundInDb);
            }
            t = t + 1;
        }
        proof {
            assert forall|l: Seq<char>| #[trigger]
                E::spec_labels().contains(l) implies table_of(
                row_views(working@),
            ).values().contains(l) by {
                let idx = choose|idx: int|
                    0 <= idx < E::spec_labels().len() && E::spec_labels()[idx] == l;
                assert(code_labels@.map_values(|s: String| s@)[idx] == code_labels@[idx]@);
                assert(code_labels@[idx]@ == l);
                let w = choose|w: int|
                    0 <= w < working@.len() && working@[w].1@ == code_labels@[idx]@;
                assert(table_of(row_views(working@)).values().contains(working@[w].1@));
            }
            assert forall|l: Seq<char>| #[trigger]
                table_of(row_views(rows@)).values().contains(
                l,
            ) implies E::spec_labels().to_set().contains(l) by {
                let w = choose|w: int| 0 <= w < working@.len() && working@[w].1@ == l;
                assert(E::spec_labels().contains(working@[w].1@));
            }
            assert forall|l: Seq<char>| #[trigger]
                E::spec_labels().to_set().contains(l) implies table_of(
                row_views(rows@),
            ).values().contains(l) by {
                assert(E::spec_labels().contains(l));
                assert(table_of(row_views(working@)).values().contains(l));
            }
            assert(table_of(row_views(rows@)).values() =~= E::spec_labels().to_set());
        }
        let m = Mapping { inner: working, _enum_type: core::marker::PhantomData };
        Ok(m)
    }

    /// Query the whole chain at once: load the raw table from a data source,
    /// then validate it.  A data-source failure is surfaced as it came;
    /// whenever a mapping comes back, it has passed the full reconciliation.
    pub fn load<S: DataSource>(source: &S) -> (r: Result<Mapping<E>, Error>)
        ensures
            r matches Ok(m) ==> m.spec_table().values() == E::spec_labels().to_set(),
    {
        match source.load() {
            Result::Err(e) => Result::Err(e),
            Result::Ok(rows) => Self::from_rows(rows),
        }
    }

    /// Look a variant up by its external id; nothing when the id has no row.
    #[verifier::loop_isolation(false)]
    pub fn by_id(&self, id: i64) -> (r: Option<E>)
        ensures
            match r {
                Some(v) => self.spec_table().dom().contains(id) && v.spec_label()
                    == self.spec_table()[id],
                None => !self.spec_table().dom().contains(id),
            },
    {
        proof {
            use_type_invariant(self);
            E::lemma_well_formed();
            lemma_table_dom(row_views(self.inner@));
            lemma_table_last(row_views(self.inner@));
        }
        let n = self.inner.len();
        let mut i: usize = 0;
        while i < n
            invariant
                0 <= i <= n,
                forall|k: int| 0 <= k < i ==> (#[trigger] self.inner@[k]).0 != id,
            decreases n - i,
        {
            if self.inner[i].0 == id {
                proof {
                    assert(E::spec_labels().contains(self.inner@[i as int].1@));
                    assert(row_views(self.inner@)[i as int].0 == id);
                    assert forall|b: int|
                        i < b < row_views(self.inner@).len() implies (#[trigger] row_views(
                        self.inner@,
                    )[b].0) != row_views(self.inner@)[i as int].0 by {
                        assert(self.inner@[b].0 != self.inner@[i as int].0);
                    }
                    assert(self.spec_table()[id] == self.inner@[i as int].1@);
                }
                let v = E::from_value(self.inner[i].1.as_str());
                return Some(v);
            }
            i = i + 1;
        }
        proof {
            if self.spec_table().dom().contains(id) {
                let a = choose|a: int|
                    0 <= a < row_views(self.inner@).len() && row_views(self.inner@)[a].0 == id;
                assert(self.inner@[a].0 == id);
            }
        }
        None
    }

    /// Look a variant up by its label; nothing when no row carries the label.
    #[verifier::loop_isolation(false)]
    pub fn by_value(&self, value: &str) -> (r: Option<E>)
        ensures
            match r {
                Some(v) => v.spec_label() == value@ && self.spec_table().values().contains(value@),
                None => !self.spec_table().values().contains(value@),
            },
    {
        proof {
            use_type_invariant(self);
            E::lemma_well_formed();
            lemma_table_dom(row_views(self.inner@));
            lemma_table_last(row_views(self.inner@));
        }
        let q = String::from_str(value);
        let n = self.inner.len();
        let mut i: usize = 0;
        while i < n
            invariant
                0 <= i <= n,
                q@ == value@,
                forall|k: int| 0 <= k < i ==> (#[trigger] self.inner@[k]).1@ != value@,
            decreases n - i,
        {
            if self.inner[i].1 == q {
                proof {
                    assert(E::spec_labels().contains(self.inner@[i as int].1@));
                    assert(row_views(self.inner@)[i as int].0 == self.inner@[i as int].0);
                    assert forall|b: int|
                        i < b < row_views(self.inner@).len() implies (#[trigger] row_views(
                        self.inner@,
                    )[b].0) != row_views(self.inner@)[i as int].0 by {
                        assert(self.inner@[b].0 != self.inner@[i as int].0);
                    }
                    assert(self.spec_table()[self.inner@[i as int].0] == self.inner@[i as int].1@);
                    assert(self.spec_table().contains_value(value@));
                }
                let v = E::from_value(value);
                return Some(v);
            }
            i = i + 1;
        }
        proof {
            if self.spec_table().values().contains(value@) {
                let k = choose|k: i64| #[trigger]
                    self.spec_table().dom().contains(k) && self.spec_table()[k] == value@;
                let a = choose|a: int|
                    0 <= a < row_views(self.inner@).len() && row_views(self.inner@)[a].0 == k;
                assert(self.inner@[a].0 == k);
                assert forall|b: int|
                    a < b < row_views(self.inner@).len() implies (#[trigger] row_views(
                    self.inner@,
                )[b].0) != row_views(self.inner@)[a].0 by {
                    assert(self.inner@[b].0 != self.inner@[a].0);
                }
                assert(self.spec_table()[k] == self.inner@[a].1@);
            }
        }
        None
    }

    /// Row round-trip law, first half: for every id in the table, the variant
    /// found by `by_id` carries exactly the stored label.
    pub fn stored_label_round_trip(&self, id: i64) -> (r: String)
        requires
            self.spec_table().dom().contains(id),
        ensures
            r@ == self.spec_table()[id],
    {
        let v = self.by_id(id).unwrap();
        v.value()
    }

    /// Row round-trip law, second half: on a table whose labels are pairwise
    /// distinct, `get_id` inverts `by_id`, so every id finds its way back.
    pub fn id_round_trip(&self, id: i64) -> (r: i64)
        requires
            self.spec_table().dom().contains(id),
            forall|k1: i64, k2: i64|
                self.spec_table().dom().contains(k1) && self.spec_table().dom().contains(k2)
                    && self.spec_table()[k1] == self.spec_table()[k2] ==> k1 == k2,
        ensures
            r == id,
    {
        let v = self.by_id(id).unwrap();
        self.get_id(&v).unwrap()
    }

    /// Find the external id assigned to a variant.  A validated mapping has a
    /// row for every variant, so this always finds one.
    #[verifier::loop_isolation(false)]
    pub fn get_id(&self, label: &E) -> (r: Option<i64>)
        ensures
            r matches Some(id) && self.spec_table().dom().contains(id) && self.spec_table()[id]
                == label.spec_label(),
    {
        proof {
            use_type_invariant(self);
            E::lemma_well_formed();
            lemma_table_dom(row_views(self.inner@));
            lemma_table_last(row_views(self.inner@));
            lemma_distinct_values(self.inner@);
        }
        let target = label.value();
        let n = self.inner.len();
        let mut i: usize = 0;
        while i < n
            invariant
                0 <= i <= n,
                target@ == label.spec_label(),
                forall|k: int| 0 <= k < i ==> (#[trigger] self.inner@[k]).1@ != target@,
            decreases n - i,
        {
            if self.inner[i].1 == target {
                proof {
                    assert(row_views(self.inner@)[i as int].0 == self.inner@[i as int].0);
                    assert forall|b: int|
                        i < b < row_views(self.inner@).len() implies (#[trigger] row_views(
                        self.inner@,
                    )[b].0) != row_views(self.inner@)[i as int].0 by {
                        assert(self.inner@[b].0 != self.inner@[i as int].0);
                    }
                    assert(self.spec_table()[self.inner@[i as int].0] == self.inner@[i as int].1@);
                }
                return Some(self.inner[i].0);
            }
            i = i + 1;
        }
        proof {
            assert(E::spec_labels().contains(label.spec_label()));
            assert(table_of(row_views(self.inner@)).values().contains(label.spec_label()));
            let w = choose|w: int|
                0 <= w < self.inner@.len() && self.inner@[w].1@ == label.spec_label();
            assert(self.inner@[w].1@ == target@);
            assert(false);
        }
        unreached()
    }
}

/// Whether some entry carries the given id.
fn contains_id(entries: &Vec<(i64, String)>, id: i64) -> (r: bool)
    ensures
        r <==> exists|j: int| 0 <= j < entries@.len() && (#[trigger] entries@[j]).0 == id,
{
    let n = entries.len();
    let mut j: usize = 0;
    while j < n
        invariant
            n == entries@.len(),
            0 <= j <= n,
            forall|k: int| 0 <= k < j ==> (#[trigger] entries@[k]).0 != id,
        decreases n - j,
    {
        if entries[j].0 == id {
            return true;
        }
        j = j + 1;
    }
    false
}

/// Whether some label in the list reads the same as the given one.
fn contains_label(labels: &Vec<String>, l: &String) -> (r: bool)
    ensures
        r <==> exists|j: int| 0 <= j < labels@.len() && (#[trigger] labels@[j])@ == l@,
{
    let n = labels.len();
    let mut j: usize = 0;
    while j < n
        invariant
            n == labels@.len(),
            0 <= j <= n,
            forall|k: int| 0 <= k < j ==> (#[trigger] labels@[k])@ != l@,
        decreases n - j,
    {
        if labels[j] == *l {
            return true;
        }
        j = j + 1;
    }
    false
}

/// Whether some row carries the given label.
fn contains_row_label(entries: &Vec<(i64, String)>, l: &String) -> (r: bool)
    ensures
        r <==> exists|j: int| 0 <= j < entries@.len() && (#[trigger] entries@[j]).1@ == l@,
{
    let n = entries.len();
    let mut j: usize = 0;
    while j < n
        invariant
            n == entries@.len(),
            0 <= j <= n,
            forall|k: int| 0 <= k < j ==> (#[trigger] entries@[k]).1@ != l@,
        decreases n - j,
    {
        if entries[j].1 == *l {
            return true;
        }
        j = j + 1;
    }
    false
}

/// Round-trip law: for every variant, looking its own label back up yields the
/// same variant.
pub fn enum_round_trip<E: Enum>(v: &E) -> (r: E)
    ensures
        r == *v,
{
    proof {
        E::lemma_well_formed();
    }
    let s = v.value();
    E::from_value(s.as_str())
}

/// Label-set law: `values` yields exactly one label per variant, with no
/// duplicates, so its cardinality is the variant count.
pub fn enum_values_distinct<E: Enum>() -> (r: Vec<String>)
    ensures
        r@.map_values(|s: String| s@) == E::spec_labels(),
        forall|i: int, j: int| 0 <= i < j < r@.len() ==> (#[trigger] r@[i])@ != (#[trigger] r@[j])@,
{
    proof {
        E::lemma_well_formed();
    }
    let r = E::values();
    proof {
        assert forall|i: int, j: int| 0 <= i < j < r@.len() implies (#[trigger] r@[i])@ != (
        #[trigger] r@[j])@ by {
            assert(r@.map_values(|s: String| s@)[i] == r@[i]@);
            assert(r@.map_values(|s: String| s@)[j] == r@[j]@);
        }
    }
    r
}

} // verus!
