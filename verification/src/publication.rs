//! The publication state machine: versions move between `published` and
//! `archived`, exactly one version is published at a time, and only a
//! snapshot with no findings can become published.

use vstd::prelude::*;
use crate::checks::{validate_full_spec, validate_snapshot, join_messages, joined_messages};
use crate::config::PortRange;
use crate::errors::GatewayError;
use crate::ids::Id;
use crate::models::Snapshot;

verus! {

/// A version row's state.
#[derive(Debug, Clone, Copy, PartialEq, Eq, Structural)]
pub enum VersionStatus {
    Published,
    Archived,
}

/// One stored configuration version: the frozen snapshot payload and its
/// state.
#[derive(Debug)]
pub struct VersionRow {
    pub id: Id,
    pub snapshot: Snapshot,
    pub status: VersionStatus,
    pub created_by: String,
    pub created_at: i64,
}

/// The version table.
#[derive(Debug)]
pub struct VersionLog {
    pub rows: Vec<VersionRow>,
}

/// How many rows are published.
pub open spec fn published_count(rows: Seq<VersionRow>) -> nat
    decreases rows.len(),
{
    if rows.len() == 0 {
        0
    } else {
        published_count(rows.drop_last()) + if rows.last().status is Published {
            1nat
        } else {
            0
        }
    }
}

/// The first row with this id.
pub open spec fn row_idx(rows: Seq<VersionRow>, id: Id) -> Option<int>
    decreases rows.len(),
{
    if rows.len() == 0 {
        None
    } else if rows[0].id == id {
        Some(0)
    } else {
        match row_idx(rows.drop_first(), id) {
            Some(j) => Some(j + 1),
            None => None,
        }
    }
}

/// The first published row.
pub open spec fn published_idx(rows: Seq<VersionRow>) -> Option<int>
    decreases rows.len(),
{
    if rows.len() == 0 {
        None
    } else if rows[0].status is Published {
        Some(0)
    } else {
        match published_idx(rows.drop_first()) {
            Some(j) => Some(j + 1),
            None => None,
        }
    }
}

/// Rows none of which is published count zero.
proof fn lemma_count_none_published(rows: Seq<VersionRow>)
    requires
        forall|i: int| 0 <= i < rows.len() ==> !((#[trigger] rows[i]).status is Published),
    ensures
        published_count(rows) == 0,
    decreases rows.len(),
{
    if rows.len() > 0 {
        assert forall|i: int|
            0 <= i < rows.drop_last().len() implies !((#[trigger] rows.drop_last()[i]).status
            is Published) by {
            assert(rows.drop_last()[i] == rows[i]);
        }
        lemma_count_none_published(rows.drop_last());
    }
}

/// Appending a row adds its own count.
proof fn lemma_count_push(rows: Seq<VersionRow>, r: VersionRow)
    ensures
        published_count(rows.push(r)) == published_count(rows) + if r.status is Published {
            1nat
        } else {
            0
        },
{
    assert(rows.push(r).drop_last() =~= rows);
    assert(rows.push(r).last() == r);
}

/// Exactly one row is published when all published rows but a single one
/// were archived.
proof fn lemma_count_single(rows: Seq<VersionRow>, t: int)
    requires
        0 <= t < rows.len(),
        rows[t].status is Published,
        forall|i: int|
            0 <= i < rows.len() && i != t ==> !((#[trigger] rows[i]).status is Published),
    ensures
        published_count(rows) == 1,
    decreases rows.len(),
{
    if t == rows.len() - 1 {
        assert forall|i: int|
            0 <= i < rows.drop_last().len() implies !((#[trigger] rows.drop_last()[i]).status
            is Published) by {
            assert(rows.drop_last()[i] == rows[i]);
        }
        lemma_count_none_published(rows.drop_last());
    } else {
        assert(rows.drop_last()[t] == rows[t]);
        assert forall|i: int|
            0 <= i < rows.drop_last().len() && i != t implies !((
        #[trigger] rows.drop_last()[i]).status is Published) by {
            assert(rows.drop_last()[i] == rows[i]);
        }
        lemma_count_single(rows.drop_last(), t);
    }
}

impl VersionLog {
    /// An empty version table.
    pub fn new() -> (r: VersionLog)
        ensures
            r.rows@.len() == 0,
    {
        VersionLog { rows: Vec::new() }
    }

    /// The currently published version, if one exists.
    pub fn published(&self) -> (r: Option<&VersionRow>)
        ensures
            match r {
                Some(row) => published_idx(self.rows@) is Some && *row
                    == self.rows@[published_idx(self.rows@).unwrap()],
                None => published_idx(self.rows@) is None,
            },
    {
        let ghost rows = self.rows@;
        proof {
            assert(rows.skip(0) =~= rows);
        }
        let mut i: usize = 0;
        while i < self.rows.len()
            invariant
                rows == self.rows@,
                i <= rows.len(),
                published_idx(rows) == match published_idx(rows.skip(i as int)) {
                    Some(j) => Some(j + i),
                    None => None::<int>,
                },
            decreases rows.len() - i,
        {
            proof {
                assert(rows.skip(i as int)[0] == rows[i as int]);
                assert(rows.skip(i as int).drop_first() =~= rows.skip(i + 1));
            }
            if matches!(self.rows[i].status, VersionStatus::Published) {
                return Some(&self.rows[i]);
            }
            i = i + 1;
        }
        proof {
            assert(rows.skip(rows.len() as int) =~= Seq::<VersionRow>::empty());
        }
        None
    }

    /// Publishes a snapshot: it must validate cleanly; then, in one step,
    /// every published row is archived and the snapshot is appended as the
    /// one published version. Afterwards exactly one version is published
    /// and its payload validates to the empty finding list.
    pub fn publish(
        &mut self,
        snapshot: Snapshot,
        http_port_range: Option<PortRange>,
        https_port_range: Option<PortRange>,
        actor: String,
        new_id: Id,
        now: i64,
    ) -> (r: Result<Id, GatewayError>)
        ensures
            validate_full_spec(http_port_range, https_port_range, &snapshot).len() > 0 ==> {
                &&& r is Err
                &&& r->Err_0 is Validation
                &&& r->Err_0->Validation_0@ == joined_messages(
                    validate_full_spec(http_port_range, https_port_range, &snapshot),
                )
                &&& *final(self) == *old(self)
            },
            validate_full_spec(http_port_range, https_port_range, &snapshot).len() == 0 ==> {
                &&& r == Ok::<Id, GatewayError>(new_id)
                &&& final(self).rows@.len() == old(self).rows@.len() + 1
                &&& forall|i: int|
                    0 <= i < old(self).rows@.len() ==> #[trigger] final(self).rows@[i] == (
                    if old(self).rows@[i].status is Published {
                        VersionRow { status: VersionStatus::Archived, ..old(self).rows@[i] }
                    } else {
                        old(self).rows@[i]
                    })
                &&& final(self).rows@.last() == (VersionRow {
                    id: new_id,
                    snapshot: snapshot,
                    status: VersionStatus::Published,
                    created_by: actor,
                    created_at: now,
                })
                &&& published_count(final(self).rows@) == 1
                &&& validate_full_spec(
                    http_port_range,
                    https_port_range,
                    &final(self).rows@.last().snapshot,
                ).len() == 0
            },
    {
        let issues = validate_snapshot(&snapshot, http_port_range, https_port_range);
        if issues.len() > 0 {
            let msg = join_messages(&issues);
            return Err(GatewayError::Validation(msg));
        }
        self.archive_published();
        let ghost archived = self.rows@;
        self.rows.push(
            VersionRow {
                id: new_id,
                snapshot,
                status: VersionStatus::Published,
                created_by: actor,
                created_at: now,
            },
        );
        proof {
            assert forall|i: int|
                0 <= i < archived.len() implies !((#[trigger] archived[i]).status is Published)
            by {}
            lemma_count_none_published(archived);
            lemma_count_push(archived, self.rows@.last());
        }
        Ok(new_id)
    }

    /// Archives every published row, leaving everything else untouched.
    fn archive_published(&mut self)
        ensures
            final(self).rows@.len() == old(self).rows@.len(),
            forall|i: int|
                0 <= i < old(self).rows@.len() ==> #[trigger] final(self).rows@[i] == (if old(
                    self,
                ).rows@[i].status is Published {
                    VersionRow { status: VersionStatus::Archived, ..old(self).rows@[i] }
                } else {
                    old(self).rows@[i]
                }),
            forall|i: int|
                0 <= i < final(self).rows@.len() ==> !((#[trigger] final(self).rows@[i]).status
                    is Published),
    {
        let ghost orig = self.rows@;
        let n = self.rows.len();
        let mut i: usize = 0;
        while i < n
            invariant
                n == orig.len(),
                self.rows@.len() == orig.len(),
                i <= n,
                forall|k: int|
                    i <= k < orig.len() ==> #[trigger] self.rows@[k] == orig[k],
                forall|k: int|
                    0 <= k < i ==> #[trigger] self.rows@[k] == (if orig[k].status is Published {
                        VersionRow { status: VersionStatus::Archived, ..orig[k] }
                    } else {
                        orig[k]
                    }),
                forall|k: int|
                    0 <= k < i ==> !((#[trigger] self.rows@[k]).status is Published),
            decreases n - i,
        {
            let ghost before = self.rows@;
            if matches!(self.rows[i].status, VersionStatus::Published) {
                let mut row = self.rows.remove(i);
                row.status = VersionStatus::Archived;
                self.rows.insert(i, row);
                proof {
                    assert(self.rows@ =~= before.update(
                        i as int,
                        VersionRow { status: VersionStatus::Archived, ..before[i as int] },
                    ));
                }
            }
            i = i + 1;
        }
    }

    /// Rolls back to a stored version: absent ids fail with `NotFound`;
    /// otherwise every published row is archived and the target row becomes
    /// the one published version. Rolling back to the already-published
    /// version changes nothing.
    pub fn rollback(&mut self, version_id: Id) -> (r: Result<(), GatewayError>)
        ensures
            match r {
                Ok(()) => {
                    let t = row_idx(old(self).rows@, version_id).unwrap();
                    &&& row_idx(old(self).rows@, version_id) is Some
                    &&& final(self).rows@.len() == old(self).rows@.len()
                    &&& forall|i: int|
                        0 <= i < old(self).rows@.len() ==> #[trigger] final(self).rows@[i] == (
                        if i == t {
                            VersionRow { status: VersionStatus::Published, ..old(self).rows@[i] }
                        } else if old(self).rows@[i].status is Published {
                            VersionRow { status: VersionStatus::Archived, ..old(self).rows@[i] }
                        } else {
                            old(self).rows@[i]
                        })
                    &&& published_count(final(self).rows@) == 1
                },
                Err(e) => {
                    &&& e is NotFound
                    &&& row_idx(old(self).rows@, version_id) is None
                    &&& *final(self) == *old(self)
                },
            },
    {
        let t = match self.find_row(version_id) {
            Some(t) => t,
            None => {
                return Err(GatewayError::not_found("config version not found"));
            },
        };
        let ghost orig = self.rows@;
        self.archive_published();
        let ghost archived = self.rows@;
        let mut row = self.rows.remove(t);
        row.status = VersionStatus::Published;
        self.rows.insert(t, row);
        proof {
            assert(self.rows@ =~= archived.update(
                t as int,
                VersionRow { status: VersionStatus::Published, ..archived[t as int] },
            ));
            assert forall|i: int|
                0 <= i < orig.len() implies #[trigger] self.rows@[i] == (if i == t as int {
                VersionRow { status: VersionStatus::Published, ..orig[i] }
            } else if orig[i].status is Published {
                VersionRow { status: VersionStatus::Archived, ..orig[i] }
            } else {
                orig[i]
            }) by {}
            assert forall|i: int|
                0 <= i < self.rows@.len() && i != t as int implies !((
            #[trigger] self.rows@[i]).status is Published) by {}
            lemma_count_single(self.rows@, t as int);
        }
        Ok(())
    }

    /// The first row with this id.
    fn find_row(&self, id: Id) -> (r: Option<usize>)
        ensures
            match r {
                Some(t) => row_idx(self.rows@, id) == Some(t as int) && t < self.rows@.len(),
                None => row_idx(self.rows@, id) is None,
            },
    {
        let ghost rows = self.rows@;
        proof {
            assert(rows.skip(0) =~= rows);
        }
        let mut i: usize = 0;
        while i < self.rows.len()
            invariant
                rows == self.rows@,
                i <= rows.len(),
                row_idx(rows, id) == match row_idx(rows.skip(i as int), id) {
                    Some(j) => Some(j + i),
                    None => None::<int>,
                },
            decreases rows.len() - i,
        {
            proof {
                assert(rows.skip(i as int)[0] == rows[i as int]);
                assert(rows.skip(i as int).drop_first() =~= rows.skip(i + 1));
            }
            if self.rows[i].id.hi == id.hi && self.rows[i].id.lo == id.lo {
                return Some(i);
            }
            i = i + 1;
        }
        proof {
            assert(rows.skip(rows.len() as int) =~= Seq::<VersionRow>::empty());
        }
        None
    }
}

/// Rolling back to the version that is already published is a no-op: every
/// row, the published row and its id included, stays exactly as it was.
pub proof fn lemma_rollback_to_published_is_noop(
    old_rows: Seq<VersionRow>,
    new_rows: Seq<VersionRow>,
    t: int,
)
    requires
        0 <= t < old_rows.len(),
        old_rows[t].status is Published,
        published_count(old_rows) == 1,
        new_rows.len() == old_rows.len(),
        forall|i: int|
            0 <= i < old_rows.len() ==> #[trigger] new_rows[i] == (if i == t {
                VersionRow { status: VersionStatus::Published, ..old_rows[i] }
            } else if old_rows[i].status is Published {
                VersionRow { status: VersionStatus::Archived, ..old_rows[i] }
            } else {
                old_rows[i]
            }),
    ensures
        new_rows == old_rows,
{
    lemma_single_published_unique(old_rows, t);
    assert forall|i: int| 0 <= i < old_rows.len() implies new_rows[i] == old_rows[i] by {
        if i == t {
            assert(new_rows[i] == (VersionRow {
                status: VersionStatus::Published,
                ..old_rows[i]
            }));
        }
    }
    assert(new_rows =~= old_rows);
}

/// With exactly one published row, no other row is published.
proof fn lemma_single_published_unique(rows: Seq<VersionRow>, t: int)
    requires
        0 <= t < rows.len(),
        rows[t].status is Published,
        published_count(rows) == 1,
    ensures
        forall|i: int| 0 <= i < rows.len() && i != t ==> !((#[trigger] rows[i]).status
            is Published),
    decreases rows.len(),
{
    if exists|i: int|
        0 <= i < rows.len() && i != t && (#[trigger] rows[i]).status is Published {
        let w = choose|i: int|
            0 <= i < rows.len() && i != t && (#[trigger] rows[i]).status is Published;
        lemma_count_two(rows, if w < t {
            w
        } else {
            t
        }, if w < t {
            t
        } else {
            w
        });
    }
}

/// Two distinct published rows force a count of at least two.
proof fn lemma_count_two(rows: Seq<VersionRow>, a: int, b: int)
    requires
        0 <= a < b < rows.len(),
        rows[a].status is Published,
        rows[b].status is Published,
    ensures
        published_count(rows) >= 2,
    decreases rows.len(),
{
    if b == rows.len() - 1 {
        lemma_count_one(rows.drop_last(), a);
    } else {
        assert(rows.drop_last()[a] == rows[a]);
        assert(rows.drop_last()[b] == rows[b]);
        lemma_count_two(rows.drop_last(), a, b);
    }
}

/// A published row forces a count of at least one.
proof fn lemma_count_one(rows: Seq<VersionRow>, a: int)
    requires
        0 <= a < rows.len(),
        rows[a].status is Published,
    ensures
        published_count(rows) >= 1,
    decreases rows.len(),
{
    if a < rows.len() - 1 {
        assert(rows.drop_last()[a] == rows[a]);
        lemma_count_one(rows.drop_last(), a);
    }
}

} // verus!
