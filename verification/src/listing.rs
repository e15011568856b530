//! The entries of a directory, in order.
use vstd::prelude::*;

use crate::disk::{fault_at, inspect, nodes_of, Content, Disk, DiskView, Record, Step};
use crate::error::{Error, ErrorView, IoErrorKind};
use crate::path::{byte_views, components, FilePath};
use crate::text;

verus! {

/// The order of names: byte by byte, a name before those that it begins.
pub open spec fn name_less(a: Seq<u8>, b: Seq<u8>) -> bool
    decreases b.len(),
{
    if b.len() == 0 {
        false
    } else if a.len() == 0 {
        true
    } else if a[0] != b[0] {
        a[0] < b[0]
    } else {
        name_less(a.skip(1), b.skip(1))
    }
}

/// Whether names stand in order, none of them twice.
pub open spec fn in_order(names: Seq<Seq<u8>>) -> bool {
    forall|i: int, j: int|
        0 <= i < j < names.len() ==> name_less(#[trigger] names[i], #[trigger] names[j])
}

/// Whether names are those of the entries of a directory, in order.
pub open spec fn is_listing(d: DiskView, dir: Seq<Seq<u8>>, names: Seq<Seq<u8>>) -> bool {
    &&& in_order(names)
    &&& forall|n: Seq<u8>| #[trigger]
        names.contains(n) <==> d.nodes.dom().contains(dir.push(n))
}

/// The names of the entries of a directory, in order.
pub open spec fn listing(d: DiskView, dir: Seq<Seq<u8>>) -> Seq<Seq<u8>> {
    choose|names: Seq<Seq<u8>>| is_listing(d, dir, names)
}

/// The names in a directory; a directory that is not there has none.
pub open spec fn entries(d: DiskView, dir: Seq<u8>) -> Result<Seq<Seq<u8>>, ErrorView> {
    let refusal = match fault_at(d, Step::List, dir) {
        Some(error) => Some(error),
        None => match inspect(d, dir) {
            Err(error) => Some(error),
            Ok(node) => if node.content is Directory {
                None
            } else {
                Some(crate::disk::not_a_directory())
            },
        },
    };
    match refusal {
        None => Ok(listing(d, components(dir))),
        Some(error) => if error.kind == IoErrorKind::NotFound {
            Ok(Seq::empty())
        } else {
            Err(ErrorView::Io { action: "read directory"@, path: dir, source: error })
        },
    }
}

/// No name comes before itself.
pub proof fn lemma_less_irreflexive(a: Seq<u8>)
    ensures
        !name_less(a, a),
    decreases a.len(),
{
    if a.len() > 0 {
        lemma_less_irreflexive(a.skip(1));
    }
}

/// The order of names is transitive.
pub proof fn lemma_less_transitive(a: Seq<u8>, b: Seq<u8>, c: Seq<u8>)
    requires
        name_less(a, b),
        name_less(b, c),
    ensures
        name_less(a, c),
    decreases c.len(),
{
    if a.len() > 0 && a[0] == b[0] && b[0] == c[0] {
        lemma_less_transitive(a.skip(1), b.skip(1), c.skip(1));
    }
}

/// Of two different names one comes before the other.
pub proof fn lemma_less_total(a: Seq<u8>, b: Seq<u8>)
    ensures
        name_less(a, b) || name_less(b, a) || a == b,
    decreases a.len(),
{
    if a.len() > 0 && b.len() > 0 && a[0] == b[0] {
        lemma_less_total(a.skip(1), b.skip(1));
        if a.skip(1) == b.skip(1) {
            assert(a =~= seq![a[0]] + a.skip(1));
            assert(b =~= seq![b[0]] + b.skip(1));
        }
    } else if a.len() == 0 && b.len() == 0 {
        assert(a =~= b);
    }
}

/// There is one way to list a set of names in order.
pub proof fn lemma_order_unique(a: Seq<Seq<u8>>, b: Seq<Seq<u8>>)
    requires
        in_order(a),
        in_order(b),
        forall|n: Seq<u8>| #[trigger] a.contains(n) <==> b.contains(n),
    ensures
        a == b,
    decreases a.len(),
{
    if a.len() == 0 {
        if b.len() > 0 {
            assert(b.contains(b[0]));
            assert(a.contains(b[0]));
        }
        assert(a =~= b);
    } else {
        assert(a.contains(a[0]));
        assert(b.contains(a[0]));
        assert(b.len() > 0);
        assert(b.contains(b[0]));
        assert(a.contains(b[0]));
        let i = choose|i: int| 0 <= i < a.len() && a[i] == b[0];
        let j = choose|j: int| 0 <= j < b.len() && b[j] == a[0];
        if i > 0 && j > 0 {
            assert(name_less(a[0], a[i]));
            assert(name_less(b[0], b[j]));
            lemma_less_transitive(a[0], b[0], a[0]);
            lemma_less_irreflexive(a[0]);
        }
        assert(a[0] == b[0]);
        let at = a.skip(1);
        let bt = b.skip(1);
        assert forall|n: Seq<u8>| #[trigger] at.contains(n) <==> bt.contains(n) by {
            if at.contains(n) {
                let k = choose|k: int| 0 <= k < at.len() && at[k] == n;
                assert(a[k + 1] == n);
                assert(a.contains(n));
                assert(name_less(a[0], a[k + 1]));
                lemma_less_irreflexive(a[0]);
                let m = choose|m: int| 0 <= m < b.len() && b[m] == n;
                assert(m > 0);
                assert(bt[m - 1] == n);
            }
            if bt.contains(n) {
                let k = choose|k: int| 0 <= k < bt.len() && bt[k] == n;
                assert(b[k + 1] == n);
                assert(b.contains(n));
                assert(a.contains(n));
                assert(name_less(b[0], b[k + 1]));
                lemma_less_irreflexive(b[0]);
                let m = choose|m: int| 0 <= m < a.len() && a[m] == n;
                assert(m > 0);
                assert(at[m - 1] == n);
            }
        }
        assert forall|x: int, y: int| 0 <= x < y < at.len() implies name_less(
            #[trigger] at[x],
            #[trigger] at[y],
        ) by {
            assert(name_less(a[x + 1], a[y + 1]));
        }
        assert forall|x: int, y: int| 0 <= x < y < bt.len() implies name_less(
            #[trigger] bt[x],
            #[trigger] bt[y],
        ) by {
            assert(name_less(b[x + 1], b[y + 1]));
        }
        lemma_order_unique(at, bt);
        assert(a =~= seq![a[0]] + at);
        assert(b =~= seq![b[0]] + bt);
    }
}

/// An entry that is there was put on record.
pub proof fn lemma_node_recorded(records: Seq<Record>, key: Seq<Seq<u8>>)
    requires
        nodes_of(records).dom().contains(key),
    ensures
        exists|i: int| 0 <= i < records.len() && byte_views((#[trigger] records[i]).key@) == key,
    decreases records.len(),
{
    if records.len() > 0 {
        if byte_views(records.last().key@) == key {
            assert(records[records.len() - 1] == records.last());
        } else {
            lemma_node_recorded(records.drop_last(), key);
            let i = choose|i: int|
                0 <= i < records.drop_last().len() && byte_views(
                    (#[trigger] records.drop_last()[i]).key@,
                ) == key;
            assert(records[i] == records.drop_last()[i]);
        }
    }
}

/// A file system holds finitely many entries.
pub proof fn lemma_nodes_finite(records: Seq<Record>)
    ensures
        nodes_of(records).dom().finite(),
    decreases records.len(),
{
    if records.len() > 0 {
        lemma_nodes_finite(records.drop_last());
    }
}

fn comes_before(a: &[u8], b: &[u8]) -> (r: bool)
    ensures
        r == name_less(a@, b@),
{
    let mut i: usize = 0;
    assert(a@.skip(0) =~= a@);
    assert(b@.skip(0) =~= b@);
    while i < a.len() && i < b.len() && a[i] == b[i]
        invariant
            i <= a@.len(),
            i <= b@.len(),
            name_less(a@, b@) == name_less(a@.skip(i as int), b@.skip(i as int)),
        decreases a.len() - i,
    {
        assert(a@.skip(i as int).skip(1) =~= a@.skip(i + 1));
        assert(b@.skip(i as int).skip(1) =~= b@.skip(i + 1));
        i += 1;
    }
    if i >= b.len() {
        false
    } else if i >= a.len() {
        true
    } else {
        a[i] < b[i]
    }
}

/// Puts a name into a list in order, unless it is there.
fn insert_name(names: &mut Vec<Vec<u8>>, name: Vec<u8>)
    requires
        in_order(byte_views(old(names)@)),
    ensures
        in_order(byte_views(final(names)@)),
        forall|n: Seq<u8>| #[trigger]
            byte_views(final(names)@).contains(n) <==> byte_views(old(names)@).contains(n) || n
                == name@,
{
    let ghost before = byte_views(names@);
    let mut i: usize = 0;
    while i < names.len() && comes_before(&names[i], &name)
        invariant
            i <= names@.len(),
            before == byte_views(names@),
            forall|k: int| 0 <= k < i ==> name_less(#[trigger] before[k], name@),
        decreases names.len() - i,
    {
        assert(before[i as int] == names@[i as int]@);
        i += 1;
    }
    assert(before.len() == names@.len());
    if i < names.len() && text::same_bytes(&names[i], &name) {
        assert(before[i as int] == name@);
        assert(before.contains(name@));
        return;
    }
    let ghost value = name@;
    names.insert(i, name);
    proof {
        let after = byte_views(names@);
        assert(after =~= before.insert(i as int, value));
        assert forall|x: int, y: int| 0 <= x < y < after.len() implies name_less(
            #[trigger] after[x],
            #[trigger] after[y],
        ) by {
            if y < i {
                assert(name_less(before[x], before[y]));
            } else if y == i {
                assert(name_less(before[x], value));
            } else if x > i {
                assert(name_less(before[x - 1], before[y - 1]));
            } else {
                lemma_less_total(before[i as int], value);
                assert(name_less(value, before[i as int]));
                if y - 1 > i {
                    assert(name_less(before[i as int], before[y - 1]));
                    lemma_less_transitive(value, before[i as int], before[y - 1]);
                }
                assert(name_less(value, before[y - 1]));
                if x < i {
                    lemma_less_transitive(before[x], value, before[y - 1]);
                }
            }
        }
        assert forall|n: Seq<u8>| #[trigger] after.contains(n) <==> before.contains(n) || n
            == value by {
            if before.contains(n) {
                let k = choose|k: int| 0 <= k < before.len() && before[k] == n;
                if k < i {
                    assert(after[k] == n);
                } else {
                    assert(after[k + 1] == n);
                }
            }
            if n == value {
                assert(after[i as int] == n);
            }
            if after.contains(n) {
                let k = choose|k: int| 0 <= k < after.len() && after[k] == n;
                if k < i {
                    assert(before[k] == n);
                } else if k > i {
                    assert(before[k - 1] == n);
                }
            }
        }
    }
}

impl Disk {
    fn list(&self, dir: &FilePath) -> (r: Vec<Vec<u8>>)
        ensures
            byte_views(r@) == listing(self@, components(dir@)),
    {
        let key = dir.components();
        let ghost k = components(dir@);
        let mut names: Vec<Vec<u8>> = Vec::new();
        let mut i: usize = 0;
        while i < self.records.len()
            invariant
                i <= self.records@.len(),
                byte_views(key@) == k,
                k.len() == key@.len(),
                in_order(byte_views(names@)),
                forall|n: Seq<u8>| #[trigger]
                    byte_views(names@).contains(n) <==> (self@.nodes.dom().contains(k.push(n))
                        && exists|j: int|
                        0 <= j < i && byte_views((#[trigger] self.records@[j]).key@) == k.push(n)),
            decreases self.records.len() - i,
        {
            let entry = &self.records[i].key;
            let ghost e = byte_views(entry@);
            let ghost before = byte_views(names@);
            assert(e.len() == entry@.len());
            if entry.len() > 0 && entry.len() - 1 == key.len() && starts_with(entry, &key) && self.entry(
                entry,
            ).is_some() {
                let name = text::copy_bytes(&entry[entry.len() - 1]);
                proof {
                    assert(e[entry@.len() - 1] == entry@[entry@.len() - 1]@);
                    assert(e =~= k.push(name@));
                }
                insert_name(&mut names, name);
                proof {
                    assert forall|n: Seq<u8>| #[trigger]
                        byte_views(names@).contains(n) <==> (self@.nodes.dom().contains(k.push(n))
                            && exists|j: int|
                            0 <= j < i + 1 && byte_views((#[trigger] self.records@[j]).key@)
                                == k.push(n)) by {
                        if n == name@ {
                            assert(byte_views(self.records@[i as int].key@) == k.push(n));
                        }
                        if byte_views(self.records@[i as int].key@) == k.push(n) {
                            assert(k.push(n).last() == n);
                            assert(k.push(name@).last() == name@);
                        }
                        assert(before.contains(n) || n == name@ <==> byte_views(names@).contains(n));
                    }
                }
            } else {
                proof {
                    assert forall|n: Seq<u8>| #[trigger]
                        byte_views(names@).contains(n) <==> (self@.nodes.dom().contains(k.push(n))
                            && exists|j: int|
                            0 <= j < i + 1 && byte_views((#[trigger] self.records@[j]).key@)
                                == k.push(n)) by {
                        if e == k.push(n) {
                            assert(e.take(k.len() as int) =~= k);
                        }
                    }
                }
            }
            i += 1;
        }
        proof {
            let found = byte_views(names@);
            assert forall|n: Seq<u8>| #[trigger]
                found.contains(n) <==> self@.nodes.dom().contains(k.push(n)) by {
                if self@.nodes.dom().contains(k.push(n)) {
                    lemma_node_recorded(self.records@, k.push(n));
                }
            }
            assert(is_listing(self@, k, found));
            let chosen = listing(self@, k);
            assert(is_listing(self@, k, chosen));
            assert forall|n: Seq<u8>| #[trigger] found.contains(n) <==> chosen.contains(n) by {
                assert(chosen.contains(n) <==> self@.nodes.dom().contains(k.push(n)));
            }
            lemma_order_unique(found, chosen);
        }
        names
    }

    /// Lists a directory; one that is not there has no entries.
    pub fn read_dir_entries(&self, dir: &FilePath) -> (r: Result<Vec<Vec<u8>>, Error>)
        ensures
            (match r {
                Ok(names) => Ok::<Seq<Seq<u8>>, ErrorView>(byte_views(names@)),
                Err(error) => Err::<Seq<Seq<u8>>, ErrorView>(error@),
            }) == entries(self@, dir@),
    {
        let refusal = match self.fault(Step::List, dir) {
            Some(error) => Some(error.copy()),
            None => match self.inspect(dir) {
                Err(error) => Some(error),
                Ok(node) => match node.content {
                    Content::Directory => None,
                    _ => Some(crate::disk::not_a_directory_error()),
                },
            },
        };
        match refusal {
            None => Ok(self.list(dir)),
            Some(error) => match error.kind {
                IoErrorKind::NotFound => {
                    let none: Vec<Vec<u8>> = Vec::new();
                    assert(byte_views(none@) =~= Seq::empty());
                    Ok(none)
                },
                _ => Err(Error::io("read directory", dir, error)),
            },
        }
    }
}

fn starts_with(names: &Vec<Vec<u8>>, prefix: &Vec<Vec<u8>>) -> (r: bool)
    requires
        prefix@.len() <= names@.len(),
    ensures
        r == (byte_views(names@).take(prefix@.len() as int) == byte_views(prefix@)),
{
    let head = crate::disk::copy_names(names, prefix.len());
    crate::path::same_names(&head, prefix)
}

} // verus!
