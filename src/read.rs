use vstd::prelude::*;
use crate::db::{build_all, TaskDb};
use crate::entry::{entries_view, lemma_entries_view, EntryModel, TaskEntry};
use crate::grammar::{document, stop_position};
use crate::parse::parse_document;
use crate::task::TaskModel;

verus! {

/// The input does not follow the export's layout; `position` is the
/// character index where reading stopped.
#[derive(Clone, Copy, Debug, PartialEq, Eq)]
pub struct ParseError {
    pub position: usize,
}

/// Reads a summary export into its title and task graph: one node per entry,
/// in document order, with the edges of nesting and of parent names.
pub fn task_entries(input: &str) -> (r: Result<TaskDb, ParseError>)
    ensures
        match document(input@) {
            None => r == Err::<TaskDb, ParseError>(
                ParseError { position: stop_position(input@) as usize },
            ),
            Some((title, entries)) => match r {
                Ok(db) => db.wf() && db.title@ == title && (db.nodes(), db.edges()) == build_all(
                    Seq::empty(),
                    Seq::empty(),
                    entries,
                ),
                Err(_) => false,
            },
        },
{
    match parse_document(input) {
        Err(position) => Err(ParseError { position }),
        Ok((title, entries)) => {
            let mut db = TaskDb::new(title.as_str());
            let mut rest = entries;
            let ghost all = rest@;
            let ghost es = entries_view(all);
            proof {
                lemma_entries_view(all);
                assert(es.subrange(0, es.len() as int) =~= es);
            }
            let total = rest.len();
            let mut k: usize = 0;
            while rest.len() > 0
                invariant
                    total == all.len(),
                    0 <= k <= all.len(),
                    rest@ == all.subrange(k as int, all.len() as int),
                    es.len() == all.len(),
                    forall|i: int| 0 <= i < all.len() ==> #[trigger] es[i] == all[i]@,
                    db.wf(),
                    db.title@ == title@,
                    build_all(db.nodes(), db.edges(), es.subrange(k as int, es.len() as int))
                        == build_all(Seq::<TaskModel>::empty(), Seq::empty(), es),
                decreases rest@.len(),
            {
                let e = rest.remove(0);
                let ghost tail = es.subrange(k as int, es.len() as int);
                assert(tail[0] == e@);
                assert(tail.drop_first() =~= es.subrange(k + 1, es.len() as int));
                db.add_ticktick_summary_task_entry(e);
                k += 1;
                assert(rest@ =~= all.subrange(k as int, all.len() as int));
            }
            assert(es.subrange(k as int, es.len() as int) =~= Seq::<EntryModel>::empty());
            Ok(db)
        },
    }
}

} // verus!
