//! What a walk over the file's tables comes to, and how a table of entries is read.
use vstd::prelude::*;

verus! {

/// The result of a parsing step: a value, the message of the error it reports,
/// or a panic.
pub enum Outcome<T> {
    Done(T),
    Failed(Seq<char>),
    Panics,
}

/// Reads the entries `0 .. n` in order and stops at the first that does not give a value.
pub open spec fn read_table<T>(n: nat, entry: spec_fn(int) -> Outcome<T>) -> Outcome<Seq<T>>
    decreases n,
{
    if n == 0 {
        Outcome::Done(seq![])
    } else {
        match read_table((n - 1) as nat, entry) {
            Outcome::Done(prev) => match entry(n - 1) {
                Outcome::Done(x) => Outcome::Done(prev.push(x)),
                Outcome::Failed(e) => Outcome::Failed(e),
                Outcome::Panics => Outcome::Panics,
            },
            Outcome::Failed(e) => Outcome::Failed(e),
            Outcome::Panics => Outcome::Panics,
        }
    }
}

/// Once reading a table has stopped, reading more entries changes nothing.
pub proof fn lemma_table_stops<T>(k: nat, n: nat, entry: spec_fn(int) -> Outcome<T>)
    requires
        k <= n,
        !(read_table(k, entry) is Done),
    ensures
        read_table(n, entry) == read_table(k, entry),
    decreases n,
{
    if n > k {
        lemma_table_stops(k, (n - 1) as nat, entry);
    }
}

/// A table read to the end holds one value per entry, each the value of its entry.
pub proof fn lemma_table_values<T>(n: nat, entry: spec_fn(int) -> Outcome<T>)
    requires
        read_table(n, entry) is Done,
    ensures
        read_table(n, entry)->Done_0.len() == n,
        forall|k: int| 0 <= k < n ==> entry(k) == Outcome::Done(#[trigger] read_table(n, entry)->Done_0[k]),
    decreases n,
{
    if n > 0 {
        lemma_table_values((n - 1) as nat, entry);
    }
}

/// A table whose entries each give a value reads to the end.
pub proof fn lemma_table_done<T>(n: nat, entry: spec_fn(int) -> Outcome<T>)
    requires
        forall|k: int| 0 <= k < n ==> #[trigger] entry(k) is Done,
    ensures
        read_table(n, entry) is Done,
    decreases n,
{
    if n > 0 {
        lemma_table_done((n - 1) as nat, entry);
        assert(entry(n - 1) is Done);
    }
}

/// A table none of whose entries panics does not panic.
pub proof fn lemma_table_no_panics<T>(n: nat, entry: spec_fn(int) -> Outcome<T>)
    requires
        forall|k: int| 0 <= k < n ==> !(#[trigger] entry(k) is Panics),
    ensures
        !(read_table(n, entry) is Panics),
    decreases n,
{
    if n > 0 {
        lemma_table_no_panics((n - 1) as nat, entry);
        assert(!(entry(n - 1) is Panics));
    }
}

/// `p` put before the values of an outcome; errors and panics pass through.
pub open spec fn prepend<T>(p: Seq<T>, o: Outcome<Seq<T>>) -> Outcome<Seq<T>> {
    match o {
        Outcome::Done(rest) => Outcome::Done(p + rest),
        Outcome::Failed(e) => Outcome::Failed(e),
        Outcome::Panics => Outcome::Panics,
    }
}

/// Putting `p` and then `q` before an outcome puts `p + q` before it.
pub proof fn lemma_prepend_prepend<T>(p: Seq<T>, q: Seq<T>, o: Outcome<Seq<T>>)
    ensures
        prepend(p, prepend(q, o)) == prepend(p + q, o),
{
    if let Outcome::Done(rest) = o {
        assert(p + (q + rest) =~= (p + q) + rest);
    }
}

/// Putting nothing before an outcome leaves it as it is.
pub proof fn lemma_prepend_empty<T>(o: Outcome<Seq<T>>)
    ensures
        prepend(Seq::<T>::empty(), o) == o,
{
    if let Outcome::Done(rest) = o {
        assert(Seq::<T>::empty() + rest =~= rest);
    }
}

} // verus!
