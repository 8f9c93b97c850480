//! The three-way comparison of tasks: by path only, description and
//! visibility play no part.
use vstd::prelude::*;
use core::cmp::Ordering;
use vstd::std_specs::cmp::PartialOrdSpecImpl;
use crate::task_list::models::Task;
use crate::task_list::path_order::{
    lemma_path_lt_asymmetric, lemma_path_lt_irreflexive, lemma_path_lt_total, lemma_path_lt_transitive, path_less, path_lt,
};

verus! {

/// The three-way comparison of two paths.
pub open spec fn path_ordering(a: Seq<Seq<char>>, b: Seq<Seq<char>>) -> Ordering {
    if path_lt(a, b) {
        Ordering::Less
    } else if path_lt(b, a) {
        Ordering::Greater
    } else {
        Ordering::Equal
    }
}

impl Task {
    /// Compares two tasks by their paths.
    pub fn cmp(&self, other: &Task) -> (r: Ordering)
        ensures
            r == path_ordering(self.path_view(), other.path_view()),
    {
        if path_less(&self.path, &other.path) {
            Ordering::Less
        } else if path_less(&other.path, &self.path) {
            Ordering::Greater
        } else {
            Ordering::Equal
        }
    }
}

impl PartialOrd for Task {
    fn partial_cmp(&self, other: &Task) -> (r: Option<Ordering>) {
        Some(self.cmp(other))
    }
}

impl PartialOrdSpecImpl for Task {
    open spec fn obeys_partial_cmp_spec() -> bool {
        true
    }

    open spec fn partial_cmp_spec(&self, other: &Task) -> Option<Ordering> {
        Some(path_ordering(self.path_view(), other.path_view()))
    }
}


/// Tasks are totally ordered by path: a task compares equal exactly to the
/// tasks with the same path, `a < b` exactly when `b > a`, and the order is
/// transitive.
pub proof fn task_order_is_total(a: Seq<Seq<char>>, b: Seq<Seq<char>>, c: Seq<Seq<char>>)
    ensures
        path_ordering(a, a) == Ordering::Equal,
        path_ordering(a, b) == Ordering::Equal <==> a == b,
        path_ordering(a, b) == Ordering::Less <==> path_ordering(b, a) == Ordering::Greater,
        path_ordering(a, b) == Ordering::Less && path_ordering(b, c) == Ordering::Less ==> path_ordering(a, c)
            == Ordering::Less,
{
    lemma_path_lt_irreflexive(a);
    lemma_path_lt_total(a, b);
    lemma_path_lt_asymmetric(a, b);
    lemma_path_lt_asymmetric(b, a);
    lemma_path_lt_transitive(a, b, c);
    lemma_path_lt_asymmetric(a, c);
}

} // verus!
