//! Gathering points into the groups in which they are written to the database.
//!
//! The caller pushes each point as it arrives and, after every row that was read,
//! asks for a full batch with `take_full`. A batch that is handed out is written in
//! one request. When the stream has ended, `finish` hands out what is left.

use vstd::prelude::*;
use crate::sample::{PointModel, TimeSeriesPoint};

verus! {

/// What a sequence of points holds.
pub open spec fn points_view(points: Seq<TimeSeriesPoint>) -> Seq<PointModel> {
    points.map_values(|p: TimeSeriesPoint| p@)
}

/// State of a batcher, as plain values.
pub struct BatcherModel {
    /// The points that wait to be written, in the order of their arrival.
    pub pending: Seq<PointModel>,
    /// A batch is due when this many points wait.
    pub batch_size: nat,
    /// Progress is reported once in this many batches.
    pub progress_interval: nat,
    /// How many batches were handed out since progress was last reported.
    pub since_report: nat,
}

impl BatcherModel {
    /// What holds of every state that can be reached.
    pub open spec fn wf(self) -> bool {
        self.since_report < self.progress_interval
    }

    /// Whether a batch is due.
    pub open spec fn is_full(self) -> bool {
        self.pending.len() >= self.batch_size
    }

    /// Whether the batch that is handed out next is one at which progress is
    /// reported.
    pub open spec fn reports_next(self) -> bool {
        self.since_report + 1 == self.progress_interval
    }

    /// The state after `point` arrived.
    pub open spec fn pushed(self, point: PointModel) -> BatcherModel {
        BatcherModel { pending: self.pending.push(point), ..self }
    }

    /// The state after a batch was asked for: where one is due all pending points
    /// leave, else nothing changes.
    pub open spec fn taken(self) -> BatcherModel {
        if self.is_full() {
            BatcherModel {
                pending: Seq::empty(),
                since_report: if self.reports_next() {
                    0
                } else {
                    self.since_report + 1
                },
                ..self
            }
        } else {
            self
        }
    }
}

/// One batch to write to the database in a single request.
#[derive(Clone, Debug, PartialEq, Eq)]
pub struct Flush {
    /// The points of the batch, in the order of their arrival.
    pub points: Vec<TimeSeriesPoint>,
    /// Whether progress is to be reported once the batch is written.
    pub report_progress: bool,
}

/// What a batch that may be there holds: its points, and whether progress is to be
/// reported.
pub open spec fn flush_view(flush: Option<Flush>) -> Option<(Seq<PointModel>, bool)> {
    match flush {
        Some(f) => Some((points_view(f.points@), f.report_progress)),
        None => None,
    }
}

/// What a group of points that may be there holds.
pub open spec fn rest_view(rest: Option<Vec<TimeSeriesPoint>>) -> Option<Seq<PointModel>> {
    match rest {
        Some(points) => Some(points_view(points@)),
        None => None,
    }
}

/// The points that wait to be written.
pub struct Batcher {
    pending: Vec<TimeSeriesPoint>,
    batch_size: usize,
    progress_interval: usize,
    since_report: usize,
}

impl View for Batcher {
    type V = BatcherModel;

    closed spec fn view(&self) -> BatcherModel {
        BatcherModel {
            pending: points_view(self.pending@),
            batch_size: self.batch_size as nat,
            progress_interval: self.progress_interval as nat,
            since_report: self.since_report as nat,
        }
    }
}

impl Batcher {
    /// A batcher with nothing pending, for batches of `batch_size` points and a
    /// progress report once in `progress_interval` batches.
    pub fn new(batch_size: usize, progress_interval: usize) -> (batcher: Batcher)
        requires
            progress_interval > 0,
        ensures
            batcher@ == (BatcherModel {
                pending: Seq::empty(),
                batch_size: batch_size as nat,
                progress_interval: progress_interval as nat,
                since_report: 0,
            }),
            batcher@.wf(),
    {
        let batcher = Batcher { pending: Vec::new(), batch_size, progress_interval, since_report: 0 };
        proof {
            assert(points_view(batcher.pending@) == Seq::<PointModel>::empty());
        }
        batcher
    }

    /// How many points wait.
    pub fn pending_len(&self) -> (n: usize)
        ensures
            n == self@.pending.len(),
    {
        self.pending.len()
    }

    /// Takes a point in, behind those that wait already.
    pub fn push(&mut self, point: TimeSeriesPoint)
        ensures
            final(self)@ == old(self)@.pushed(point@),
    {
        proof {
            assert(points_view(self.pending@.push(point)) == points_view(self.pending@).push(point@));
        }
        self.pending.push(point);
    }

    /// Hands out a batch where one is due: all pending points, as soon as there are
    /// at least as many as the batch size. It is to be called after every row that
    /// was read, whether the row gave a point or not.
    pub fn take_full(&mut self) -> (flush: Option<Flush>)
        requires
            old(self)@.wf(),
        ensures
            final(self)@ == old(self)@.taken(),
            final(self)@.wf(),
            flush_view(flush) == if old(self)@.is_full() {
                Some((old(self)@.pending, old(self)@.reports_next()))
            } else {
                None
            },
    {
        if self.pending.len() < self.batch_size {
            return None;
        }
        let mut points: Vec<TimeSeriesPoint> = Vec::new();
        std::mem::swap(&mut self.pending, &mut points);
        let report_progress = self.since_report + 1 == self.progress_interval;
        if report_progress {
            self.since_report = 0;
        } else {
            self.since_report = self.since_report + 1;
        }
        proof {
            assert(points_view(self.pending@) == Seq::<PointModel>::empty());
        }
        Some(Flush { points, report_progress })
    }

    /// Ends the batching: hands out the points that are left, if there are any.
    pub fn finish(self) -> (rest: Option<Vec<TimeSeriesPoint>>)
        ensures
            rest_view(rest) == if self@.pending.len() > 0 {
                Some(self@.pending)
            } else {
                None
            },
    {
        if self.pending.len() == 0 {
            None
        } else {
            Some(self.pending)
        }
    }
}

/// The points of the rows that gave one, in the order of the rows.
pub open spec fn points_of(rows: Seq<Option<PointModel>>) -> Seq<PointModel>
    decreases rows.len(),
{
    if rows.len() == 0 {
        Seq::empty()
    } else {
        match rows.last() {
            Some(point) => points_of(rows.drop_last()).push(point),
            None => points_of(rows.drop_last()),
        }
    }
}

/// The points of the batches, one batch after the other.
pub open spec fn joined(batches: Seq<Seq<PointModel>>) -> Seq<PointModel>
    decreases batches.len(),
{
    if batches.len() == 0 {
        Seq::empty()
    } else {
        joined(batches.drop_last()) + batches.last()
    }
}

/// The batches that were handed out, and the state, after the rows were taken one
/// by one: the point of a row, if it gave one, is pushed, and then a batch is asked
/// for.
pub open spec fn after_rows(m: BatcherModel, rows: Seq<Option<PointModel>>) -> (
    Seq<Seq<PointModel>>,
    BatcherModel,
)
    decreases rows.len(),
{
    if rows.len() == 0 {
        (Seq::empty(), m)
    } else {
        let (batches, before) = after_rows(m, rows.drop_last());
        let arrived = match rows.last() {
            Some(point) => before.pushed(point),
            None => before,
        };
        if arrived.is_full() {
            (batches.push(arrived.pending), arrived.taken())
        } else {
            (batches, arrived)
        }
    }
}

/// Batching loses nothing, adds nothing and keeps the order of arrival: the batches
/// that were handed out, one after the other, and then the points that still wait,
/// are the points that waited at first and then those of the rows. No batch is
/// smaller than the batch size; and where the batch size is not zero and fewer
/// points than that waited at first, every batch has exactly that size and fewer
/// points than that are left.
pub proof fn law_batches_keep_arrival_order(m: BatcherModel, rows: Seq<Option<PointModel>>)
    requires
        m.wf(),
    ensures
        after_rows(m, rows).1.wf(),
        after_rows(m, rows).1.batch_size == m.batch_size,
        joined(after_rows(m, rows).0) + after_rows(m, rows).1.pending == m.pending + points_of(rows),
        forall|k: int|
            0 <= k < after_rows(m, rows).0.len() ==> (#[trigger] after_rows(m, rows).0[k]).len()
                >= m.batch_size,
        m.batch_size > 0 && m.pending.len() < m.batch_size ==> {
            &&& after_rows(m, rows).1.pending.len() < m.batch_size
            &&& forall|k: int|
                0 <= k < after_rows(m, rows).0.len() ==> (#[trigger] after_rows(m, rows).0[k]).len()
                    == m.batch_size
        },
    decreases rows.len(),
{
    if rows.len() == 0 {
        assert(joined(after_rows(m, rows).0) + m.pending == m.pending + points_of(rows));
    } else {
        let earlier = rows.drop_last();
        law_batches_keep_arrival_order(m, earlier);
        let (batches, before) = after_rows(m, earlier);
        let arrived = match rows.last() {
            Some(point) => before.pushed(point),
            None => before,
        };
        let (all, end) = after_rows(m, rows);
        assert(joined(batches) + arrived.pending == m.pending + points_of(rows)) by {
            match rows.last() {
                Some(point) => {
                    assert(joined(batches) + before.pending.push(point) == (joined(batches)
                        + before.pending).push(point));
                    assert((m.pending + points_of(earlier)).push(point) == m.pending + points_of(
                        earlier,
                    ).push(point));
                },
                None => {},
            }
        }
        if arrived.is_full() {
            assert(all.drop_last() == batches);
            assert(all.last() == arrived.pending);
            assert(joined(all) + end.pending == joined(batches) + arrived.pending);
            assert forall|k: int| 0 <= k < all.len() implies (#[trigger] all[k]).len()
                >= m.batch_size by {
                if k < batches.len() {
                    assert(all[k] == batches[k]);
                }
            }
            if m.batch_size > 0 && m.pending.len() < m.batch_size {
                assert forall|k: int| 0 <= k < all.len() implies (#[trigger] all[k]).len()
                    == m.batch_size by {
                    if k < batches.len() {
                        assert(all[k] == batches[k]);
                    }
                }
            }
        }
    }
}

} // verus!
