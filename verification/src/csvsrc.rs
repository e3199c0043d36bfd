//! The CSV data source. The file name decides everything before a row is
//! read: the stem left after the fixed suffix names the single context key
//! the file populates (root key) and, when the stem has two dot-separated
//! parts, the column the rows are keyed by (search key). Rows that carry
//! the search column go to a keyed store with that column removed; rows
//! that do not are appended, whole, to a sequential store. A non-empty
//! sequential store wins: the context entry is then a sequence of records,
//! otherwise the keyed mapping.

use vstd::prelude::*;
use vstd::string::*;
use crate::context::Context;
use crate::node::{lemma_view_node_pairs, lemma_view_nodes, view_node_pairs, view_nodes, Node,
    NodeView};
use crate::strutil::{concat2, count_dots, dot_count, ends_with, file_name, find_first_dot,
    first_dot, split_path, str_ends_with, str_strip_suffix, strip_suffix};

verus! {

broadcast use vstd::std_specs::vec::group_vec_axioms, vstd::seq::group_seq_axioms;

/// One CSV row: column name to field text, in column order.
pub type Record = Vec<(String, String)>;

/// The character-level shape of a record.
pub type RecordView = Seq<(Seq<char>, Seq<char>)>;

/// The views of a string list, element by element.
pub open spec fn strings_view(rs: Seq<String>) -> Seq<Seq<char>> {
    Seq::new(rs.len(), |i: int| rs[i]@)
}

/// The views of a field table, row by row.
pub open spec fn table_view(t: Seq<Vec<String>>) -> Seq<Seq<Seq<char>>> {
    Seq::new(t.len(), |i: int| strings_view(t[i]@))
}

/// The view of a record.
pub open spec fn record_view(rs: Seq<(String, String)>) -> RecordView {
    Seq::new(rs.len(), |i: int| (rs[i].0@, rs[i].1@))
}

/// Pair a header row with a data row, column by column, up to the shorter
/// of the two.
pub open spec fn zip_record(hdrs: Seq<Seq<char>>, row: Seq<Seq<char>>) -> RecordView {
    Seq::new(
        if hdrs.len() <= row.len() {
            hdrs.len()
        } else {
            row.len()
        },
        |i: int| (hdrs[i], row[i]),
    )
}

/// The field under the first column of `rec` named `k`, if any.
pub open spec fn record_lookup(rec: RecordView, k: Seq<char>) -> Option<Seq<char>>
    decreases rec.len(),
{
    if rec.len() == 0 {
        None
    } else if rec[0].0 == k {
        Some(rec[0].1)
    } else {
        record_lookup(rec.skip(1), k)
    }
}

/// `rec` without the columns named `k`.
pub open spec fn record_remove(rec: RecordView, k: Seq<char>) -> RecordView
    decreases rec.len(),
{
    if rec.len() == 0 {
        rec
    } else if rec.last().0 == k {
        record_remove(rec.drop_last(), k)
    } else {
        record_remove(rec.drop_last(), k).push(rec.last())
    }
}

/// Put a record into the keyed store under `k`: the first entry already
/// keyed `k` is replaced in place, a new key is appended.
pub open spec fn keyed_insert(
    store: Seq<(Seq<char>, RecordView)>,
    k: Seq<char>,
    r: RecordView,
) -> Seq<(Seq<char>, RecordView)>
    decreases store.len(),
{
    if store.len() == 0 {
        seq![(k, r)]
    } else if store[0].0 == k {
        seq![(k, r)] + store.skip(1)
    } else {
        seq![store[0]] + keyed_insert(store.skip(1), k, r)
    }
}

/// Partition the data rows: each row zipped with the headers goes to the
/// keyed store when it carries the search column (that column removed),
/// and to the sequential store, whole, when it does not.
pub open spec fn csv_stores(
    search: Seq<char>,
    hdrs: Seq<Seq<char>>,
    rows: Seq<Seq<Seq<char>>>,
) -> (Seq<RecordView>, Seq<(Seq<char>, RecordView)>)
    decreases rows.len(),
{
    if rows.len() == 0 {
        (Seq::empty(), Seq::empty())
    } else {
        let prev = csv_stores(search, hdrs, rows.drop_last());
        let rec = zip_record(hdrs, rows.last());
        match record_lookup(rec, search) {
            Some(kv) => (prev.0, keyed_insert(prev.1, kv, record_remove(rec, search))),
            None => (prev.0.push(rec), prev.1),
        }
    }
}

/// A record as a context value: a mapping of scalars.
pub open spec fn record_value(rec: RecordView) -> NodeView {
    NodeView::Mapping(Seq::new(rec.len(), |i: int| (NodeView::Scalar(rec[i].0), NodeView::Scalar(rec[i].1))))
}

/// The single value a CSV table yields: the sequential store as a sequence
/// of records when it is non-empty, the keyed store as a mapping otherwise.
pub open spec fn csv_table_value(search: Seq<char>, table: Seq<Seq<Seq<char>>>) -> NodeView {
    let hdrs = if table.len() == 0 {
        Seq::empty()
    } else {
        table[0]
    };
    let rows = if table.len() == 0 {
        table
    } else {
        table.skip(1)
    };
    let stores = csv_stores(search, hdrs, rows);
    if stores.0.len() > 0 {
        NodeView::Sequence(Seq::new(stores.0.len(), |i: int| record_value(stores.0[i])))
    } else {
        NodeView::Mapping(
            Seq::new(
                stores.1.len(),
                |i: int| (NodeView::Scalar(stores.1[i].0), record_value(stores.1[i].1)),
            ),
        )
    }
}

/// The root and search keys a CSV file name decides: the file must bear
/// the fixed suffix; its stem must be one dot-separated segment (root and
/// search keys both the stem) or two (root key, then search key); any
/// other shape contributes nothing.
pub open spec fn spec_csv_keys(path: Seq<char>) -> Option<(Seq<char>, Seq<char>)> {
    let file = file_name(path);
    if !ends_with(file, ".dmt.csv"@) {
        None
    } else {
        let stem = strip_suffix(file, ".dmt.csv"@);
        if stem.len() == 0 {
            None
        } else if dot_count(stem) == 0 {
            Some((stem, stem))
        } else if dot_count(stem) == 1 {
            Some((stem.take(first_dot(stem)), stem.skip(first_dot(stem) + 1)))
        } else {
            None
        }
    }
}

/// The context a CSV file yields: one entry under prefix + root key, or
/// nothing when the file name decides no keys.
pub open spec fn spec_csv_load(
    path: Seq<char>,
    prefix: Seq<char>,
    table: Seq<Seq<Seq<char>>>,
) -> Map<Seq<char>, NodeView> {
    match spec_csv_keys(path) {
        Some(keys) => Map::empty().insert(prefix + keys.0, csv_table_value(keys.1, table)),
        None => Map::empty(),
    }
}

proof fn lemma_record_lookup_at(rec: RecordView, k: Seq<char>, i: int)
    requires
        0 <= i < rec.len(),
        rec[i].0 == k,
        forall|j: int| 0 <= j < i ==> (#[trigger] rec[j]).0 != k,
    ensures
        record_lookup(rec, k) == Some(rec[i].1),
    decreases i,
{
    if i > 0 {
        assert(forall|j: int| 0 <= j < rec.len() - 1 ==> rec.skip(1)[j] == rec[j + 1]);
        lemma_record_lookup_at(rec.skip(1), k, i - 1);
    }
}

proof fn lemma_record_lookup_none(rec: RecordView, k: Seq<char>)
    requires
        forall|j: int| 0 <= j < rec.len() ==> (#[trigger] rec[j]).0 != k,
    ensures
        record_lookup(rec, k) is None,
    decreases rec.len(),
{
    if rec.len() > 0 {
        assert(forall|j: int| 0 <= j < rec.len() - 1 ==> rec.skip(1)[j] == rec[j + 1]);
        lemma_record_lookup_none(rec.skip(1), k);
    }
}

proof fn lemma_keyed_insert_at(s: Seq<(Seq<char>, RecordView)>, k: Seq<char>, r: RecordView, i: int)
    requires
        0 <= i < s.len(),
        s[i].0 == k,
        forall|j: int| 0 <= j < i ==> (#[trigger] s[j]).0 != k,
    ensures
        keyed_insert(s, k, r) == s.update(i, (k, r)),
    decreases i,
{
    if i == 0 {
        assert(keyed_insert(s, k, r) =~= s.update(0, (k, r)));
    } else {
        assert(forall|j: int| 0 <= j < s.len() - 1 ==> s.skip(1)[j] == s[j + 1]);
        lemma_keyed_insert_at(s.skip(1), k, r, i - 1);
        assert(seq![s[0]] + s.skip(1).update(i - 1, (k, r)) =~= s.update(i, (k, r)));
    }
}

proof fn lemma_keyed_insert_none(s: Seq<(Seq<char>, RecordView)>, k: Seq<char>, r: RecordView)
    requires
        forall|j: int| 0 <= j < s.len() ==> (#[trigger] s[j]).0 != k,
    ensures
        keyed_insert(s, k, r) == s.push((k, r)),
    decreases s.len(),
{
    if s.len() == 0 {
        assert(keyed_insert(s, k, r) =~= s.push((k, r)));
    } else {
        assert(forall|j: int| 0 <= j < s.len() - 1 ==> s.skip(1)[j] == s[j + 1]);
        lemma_keyed_insert_none(s.skip(1), k, r);
        assert(seq![s[0]] + s.skip(1).push((k, r)) =~= s.push((k, r)));
    }
}

/// Pair the headers with one data row, column by column.
fn build_record(hdrs: &Vec<String>, row: &Vec<String>) -> (rec: Record)
    ensures
        record_view(rec@) == zip_record(strings_view(hdrs@), strings_view(row@)),
{
    let m = if hdrs.len() <= row.len() {
        hdrs.len()
    } else {
        row.len()
    };
    let mut rec: Record = Vec::new();
    let mut j: usize = 0;
    while j < m
        invariant
            m == (if hdrs@.len() <= row@.len() {
                hdrs@.len()
            } else {
                row@.len()
            }),
            j <= m,
            rec@.len() == j,
            forall|l: int|
                0 <= l < j ==> (#[trigger] rec@[l]).0@ == hdrs@[l]@ && rec@[l].1@ == row@[l]@,
        decreases m - j,
    {
        rec.push((hdrs[j].clone(), row[j].clone()));
        j += 1;
    }
    proof {
        assert(record_view(rec@) =~= zip_record(strings_view(hdrs@), strings_view(row@)));
    }
    rec
}

/// Index of the first column of `rec` named `k`, if any.
fn find_column(rec: &Record, k: &String) -> (r: Option<usize>)
    ensures
        match r {
            Some(i) => i < rec@.len() && record_view(rec@)[i as int].0 == k@ && record_lookup(
                record_view(rec@),
                k@,
            ) == Some(record_view(rec@)[i as int].1),
            None => record_lookup(record_view(rec@), k@) is None,
        },
{
    let n = rec.len();
    let mut i: usize = 0;
    while i < n
        invariant
            n == rec@.len(),
            i <= n,
            forall|j: int| 0 <= j < i ==> (#[trigger] record_view(rec@)[j]).0 != k@,
        decreases n - i,
    {
        if rec[i].0 == *k {
            proof {
                lemma_record_lookup_at(record_view(rec@), k@, i as int);
            }
            return Some(i);
        }
        i += 1;
    }
    proof {
        lemma_record_lookup_none(record_view(rec@), k@);
    }
    None
}

/// `rec` without the columns named `k`.
fn remove_column(rec: &Record, k: &String) -> (out: Record)
    ensures
        record_view(out@) == record_remove(record_view(rec@), k@),
{
    let ghost rv = record_view(rec@);
    let n = rec.len();
    let mut out: Record = Vec::new();
    let mut i: usize = 0;
    proof {
        assert(rv.take(0) =~= Seq::<(Seq<char>, Seq<char>)>::empty());
        assert(record_view(out@) =~= record_remove(rv.take(0), k@));
    }
    while i < n
        invariant
            n == rec@.len(),
            i <= n,
            rv == record_view(rec@),
            record_view(out@) == record_remove(rv.take(i as int), k@),
        decreases n - i,
    {
        proof {
            assert(rv.take(i + 1 as int).drop_last() =~= rv.take(i as int));
            assert(rv.take(i + 1 as int).last() == rv[i as int]);
        }
        if !(rec[i].0 == *k) {
            let ghost before = record_view(out@);
            out.push((rec[i].0.clone(), rec[i].1.clone()));
            proof {
                assert(record_view(out@) =~= before.push(rv[i as int]));
            }
        }
        i += 1;
    }
    proof {
        assert(rv.take(n as int) =~= rv);
    }
    out
}

/// The keyed store's shape: row key to record, in first-seen order.
pub open spec fn keyed_view(ks: Seq<(String, Record)>) -> Seq<(Seq<char>, RecordView)> {
    Seq::new(ks.len(), |i: int| (ks[i].0@, record_view(ks[i].1@)))
}

/// The sequential store's shape: the records in row order.
pub open spec fn list_view(ls: Seq<Record>) -> Seq<RecordView> {
    Seq::new(ls.len(), |i: int| record_view(ls[i]@))
}

/// Put a record into the keyed store under `k`, replacing the first entry
/// already keyed `k` or appending.
fn keyed_store_insert(store: &mut Vec<(String, Record)>, k: String, r: Record)
    ensures
        keyed_view(final(store)@) == keyed_insert(keyed_view(old(store)@), k@, record_view(r@)),
{
    let n = store.len();
    let mut i: usize = 0;
    while i < n
        invariant
            n == store@.len(),
            *store == *old(store),
            i <= n,
            forall|j: int| 0 <= j < i ==> (#[trigger] keyed_view(store@)[j]).0 != k@,
        decreases n - i,
    {
        if store[i].0 == k {
            proof {
                lemma_keyed_insert_at(keyed_view(store@), k@, record_view(r@), i as int);
            }
            let ghost before = keyed_view(store@);
            store[i] = (k, r);
            proof {
                assert(keyed_view(store@) =~= before.update(
                    i as int,
                    (k@, record_view(store@[i as int].1@)),
                ));
            }
            return ;
        }
        i += 1;
    }
    proof {
        lemma_keyed_insert_none(keyed_view(store@), k@, record_view(r@));
    }
    let ghost before = keyed_view(store@);
    store.push((k, r));
    proof {
        assert(keyed_view(store@) =~= before.push((k@, record_view(r@))));
    }
}

/// A record as a context value: a mapping of scalar columns.
fn record_to_node(rec: &Record) -> (v: Node)
    ensures
        v@ == record_value(record_view(rec@)),
{
    let n = rec.len();
    let mut pairs: Vec<(Node, Node)> = Vec::new();
    let mut i: usize = 0;
    while i < n
        invariant
            n == rec@.len(),
            i <= n,
            pairs@.len() == i,
            forall|l: int|
                0 <= l < i ==> (#[trigger] pairs@[l]).0 == Node::Scalar(rec@[l].0)
                    && pairs@[l].1 == Node::Scalar(rec@[l].1),
        decreases n - i,
    {
        pairs.push((Node::Scalar(rec[i].0.clone()), Node::Scalar(rec[i].1.clone())));
        i += 1;
    }
    let ghost ps = pairs@;
    let v = Node::Mapping(pairs);
    proof {
        lemma_view_node_pairs(ps);
        let goal = record_value(record_view(rec@))->Mapping_0;
        assert forall|l: int| 0 <= l < n implies view_node_pairs(ps)[l] == goal[l] by {
            assert(view_node_pairs(ps)[l] == (ps[l].0@, ps[l].1@));
            assert(ps[l].0@ == NodeView::Scalar(rec@[l].0@));
            assert(ps[l].1@ == NodeView::Scalar(rec@[l].1@));
            assert(goal[l] == (
                NodeView::Scalar(record_view(rec@)[l].0),
                NodeView::Scalar(record_view(rec@)[l].1),
            ));
        }
        assert(view_node_pairs(ps) =~= goal);
    }
    v
}

/// The sequential store as a context value: a sequence of records.
fn list_to_node(list: &Vec<Record>) -> (v: Node)
    ensures
        v@ == NodeView::Sequence(
            Seq::new(list_view(list@).len(), |i: int| record_value(list_view(list@)[i])),
        ),
{
    let n = list.len();
    let mut items: Vec<Node> = Vec::new();
    let mut i: usize = 0;
    while i < n
        invariant
            n == list@.len(),
            i <= n,
            items@.len() == i,
            forall|l: int|
                0 <= l < i ==> #[trigger] items@[l]@ == record_value(record_view(list@[l]@)),
        decreases n - i,
    {
        let item = record_to_node(&list[i]);
        items.push(item);
        i += 1;
    }
    let ghost its = items@;
    let v = Node::Sequence(items);
    proof {
        lemma_view_nodes(its);
        let goal = Seq::new(list_view(list@).len(), |i: int| record_value(list_view(list@)[i]));
        assert forall|l: int| 0 <= l < n implies view_nodes(its)[l] == goal[l] by {
            assert(view_nodes(its)[l] == its[l]@);
            assert(its[l]@ == record_value(record_view(list@[l]@)));
            assert(goal[l] == record_value(list_view(list@)[l]));
            assert(list_view(list@)[l] == record_view(list@[l]@));
        }
        assert(view_nodes(its) =~= goal);
    }
    v
}

/// The keyed store as a context value: a mapping from row key to record.
fn keyed_to_node(keyed: &Vec<(String, Record)>) -> (v: Node)
    ensures
        v@ == NodeView::Mapping(
            Seq::new(
                keyed_view(keyed@).len(),
                |i: int|
                    (
                        NodeView::Scalar(keyed_view(keyed@)[i].0),
                        record_value(keyed_view(keyed@)[i].1),
                    ),
            ),
        ),
{
    let n = keyed.len();
    let mut pairs: Vec<(Node, Node)> = Vec::new();
    let mut i: usize = 0;
    while i < n
        invariant
            n == keyed@.len(),
            i <= n,
            pairs@.len() == i,
            forall|l: int|
                0 <= l < i ==> (#[trigger] pairs@[l]).0 == Node::Scalar(keyed@[l].0) && pairs@[l].1@
                    == record_value(record_view(keyed@[l].1@)),
        decreases n - i,
    {
        let item = record_to_node(&keyed[i].1);
        pairs.push((Node::Scalar(keyed[i].0.clone()), item));
        i += 1;
    }
    let ghost ps = pairs@;
    let v = Node::Mapping(pairs);
    proof {
        lemma_view_node_pairs(ps);
        let goal = Seq::new(
            keyed_view(keyed@).len(),
            |i: int|
                (NodeView::Scalar(keyed_view(keyed@)[i].0), record_value(keyed_view(keyed@)[i].1)),
        );
        assert forall|l: int| 0 <= l < n implies view_node_pairs(ps)[l] == goal[l] by {
            assert(view_node_pairs(ps)[l] == (ps[l].0@, ps[l].1@));
            assert(ps[l].0@ == NodeView::Scalar(keyed@[l].0@));
            assert(keyed_view(keyed@)[l] == (keyed@[l].0@, record_view(keyed@[l].1@)));
        }
        assert(view_node_pairs(ps) =~= goal);
    }
    v
}

/// Derive the root and search keys from a CSV file's path.
pub fn csv_keys(path: &str) -> (r: Option<(String, String)>)
    ensures
        match r {
            Some(keys) => spec_csv_keys(path@) == Some((keys.0@, keys.1@)),
            None => spec_csv_keys(path@) is None,
        },
{
    let (_dir, file) = split_path(path);
    if !str_ends_with(file.as_str(), ".dmt.csv") {
        return None;
    }
    let stem = str_strip_suffix(file.as_str(), ".dmt.csv");
    let n = stem.as_str().unicode_len();
    if n == 0 {
        return None;
    }
    let dots = count_dots(stem.as_str());
    if dots == 0 {
        let root = stem.clone();
        return Some((root, stem));
    }
    if dots == 1 {
        let p = find_first_dot(stem.as_str());
        proof {
            crate::strutil::lemma_first_dot(stem@);
        }
        let root = String::from_str(stem.as_str().substring_char(0, p));
        let search = String::from_str(stem.as_str().substring_char(p + 1, n));
        return Some((root, search));
    }
    None
}

/// Load a CSV source from its path and its parsed field table (headers
/// first): derive the keys from the path, partition the data rows, and
/// yield the single context entry — or an empty context when the file
/// name decides no keys.
pub fn csv_context(path: &str, prefix: &str, table: &Vec<Vec<String>>) -> (c: Context)
    ensures
        c.wf(),
        c@ == spec_csv_load(path@, prefix@, table_view(table@)),
{
    let keys = csv_keys(path);
    match keys {
        None => Context::new(),
        Some((root, search)) => {
            let ghost tv = table_view(table@);
            let ghost hv = if tv.len() == 0 {
                Seq::<Seq<char>>::empty()
            } else {
                tv[0]
            };
            let ghost rows_v = if tv.len() == 0 {
                tv
            } else {
                tv.skip(1)
            };
            let n = table.len();
            let rows_count = if n == 0 {
                0
            } else {
                n - 1
            };
            let mut list: Vec<Record> = Vec::new();
            let mut keyed: Vec<(String, Record)> = Vec::new();
            let mut i: usize = 0;
            proof {
                assert(rows_v.take(0) =~= Seq::<Seq<Seq<char>>>::empty());
                assert(list_view(list@) =~= csv_stores(search@, hv, rows_v.take(0)).0);
                assert(keyed_view(keyed@) =~= csv_stores(search@, hv, rows_v.take(0)).1);
            }
            while i < rows_count
                invariant
                    n == table@.len(),
                    rows_count == (if n == 0 {
                        0
                    } else {
                        (n - 1) as usize
                    }),
                    i <= rows_count,
                    tv == table_view(table@),
                    hv == (if tv.len() == 0 {
                        Seq::<Seq<char>>::empty()
                    } else {
                        tv[0]
                    }),
                    rows_v == (if tv.len() == 0 {
                        tv
                    } else {
                        tv.skip(1)
                    }),
                    rows_v.len() == rows_count,
                    list_view(list@) == csv_stores(search@, hv, rows_v.take(i as int)).0,
                    keyed_view(keyed@) == csv_stores(search@, hv, rows_v.take(i as int)).1,
                decreases rows_count - i,
            {
                let rec = build_record(&table[0], &table[i + 1]);
                proof {
                    assert(strings_view(table@[0]@) == hv);
                    assert(strings_view(table@[i + 1 as int]@) == rows_v[i as int]);
                    assert(record_view(rec@) == zip_record(hv, rows_v[i as int]));
                    assert(rows_v.take(i + 1 as int).drop_last() =~= rows_v.take(i as int));
                    assert(rows_v.take(i + 1 as int).last() == rows_v[i as int]);
                }
                match find_column(&rec, &search) {
                    Some(ci) => {
                        let kv = rec[ci].1.clone();
                        let newrec = remove_column(&rec, &search);
                        proof {
                            assert(kv@ == record_view(rec@)[ci as int].1);
                        }
                        keyed_store_insert(&mut keyed, kv, newrec);
                    },
                    None => {
                        let ghost before = list_view(list@);
                        list.push(rec);
                        proof {
                            assert(list_view(list@) =~= before.push(record_view(rec@)));
                        }
                    },
                }
                i += 1;
            }
            proof {
                assert(rows_v.take(rows_count as int) =~= rows_v);
            }
            let value = if list.len() > 0 {
                list_to_node(&list)
            } else {
                keyed_to_node(&keyed)
            };
            proof {
                assert(value@ == csv_table_value(search@, tv));
            }
            let key = concat2(prefix, root.as_str());
            let mut c = Context::new();
            c.add(key, value);
            c
        },
    }
}

} // verus!
