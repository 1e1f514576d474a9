//! The sync coordinator: one exchange with a device.

use vstd::prelude::*;
use crate::changes::{changes_since, read_watermark, watermark, watermark_ok};
use crate::db::{Database, DatabaseView, DeviceSyncView};
use crate::error::SyncError;
use crate::merge::{all_valid, first_malformed, merged};
use crate::models::{SyncRequest, SyncRequestView, SyncResponse, SyncResponseView};
use crate::table::put;
use crate::text::opt_text;
use crate::timestamp::clock_rfc3339;

verus! {

/// What the server answers to a request that it accepts: the conflicts of the merge, the
/// changes after the device's watermark as the store holds them after the merge, and the
/// server's time.
pub open spec fn response(
    s: DatabaseView,
    request: SyncRequestView,
    stamp: Seq<char>,
    server_time: Seq<char>,
) -> SyncResponseView {
    let after = merged(s, request.changes, stamp);
    SyncResponseView {
        server_time,
        changes: changes_since(after.store, watermark(request.last_sync)),
        conflicts: after.conflicts,
    }
}

/// The store after a request that the server accepts: the batch is merged, and the server's
/// time is recorded for the device.
pub open spec fn synced(
    s: DatabaseView,
    request: SyncRequestView,
    stamp: Seq<char>,
    server_time: Seq<char>,
) -> DatabaseView {
    let after = merged(s, request.changes, stamp).store;
    DatabaseView {
        device_sync: put(
            after.device_sync,
            DeviceSyncView { device_id: request.device_id, last_sync: server_time },
        ),
        ..after
    }
}

/// The watermark of a request, as a borrowed text.
fn watermark_text(request: &SyncRequest) -> (r: Option<&str>)
    ensures
        opt_text(r) == request@.last_sync,
{
    match &request.last_sync {
        Some(text) => Some(text.as_str()),
        None => None,
    }
}

impl Database {
    /// One exchange, with the times given: `stamp` for the memberships that tasks bring,
    /// `server_time` for the answer. A request with a malformed watermark or record is refused
    /// and changes nothing.
    pub fn sync_at(&mut self, request: &SyncRequest, stamp: &str, server_time: String) -> (r:
        Result<SyncResponse, SyncError>)
        requires
            old(self).wf(),
        ensures
            final(self).wf(),
            match r {
                Ok(answer) => {
                    &&& watermark_ok(request@.last_sync)
                    &&& all_valid(request@.changes)
                    &&& answer@ == response(old(self)@, request@, stamp@, server_time@)
                    &&& final(self)@ == synced(old(self)@, request@, stamp@, server_time@)
                },
                Err(SyncError::MalformedWatermark) => {
                    &&& !watermark_ok(request@.last_sync)
                    &&& final(self)@ == old(self)@
                },
                Err(SyncError::MalformedRecord(i)) => {
                    &&& watermark_ok(request@.last_sync)
                    &&& first_malformed(request@.changes, i as int)
                    &&& final(self)@ == old(self)@
                },
            },
    {
        let mark = match read_watermark(watermark_text(request)) {
            Ok(mark) => mark,
            Err(e) => {
                return Err(e);
            },
        };
        let conflicts = match self.apply_changes_at(request.changes.as_slice(), stamp) {
            Ok(conflicts) => conflicts,
            Err(e) => {
                return Err(e);
            },
        };
        let changes = self.changes_after(mark);
        self.update_device_sync(request.device_id.as_str(), server_time.as_str());
        Ok(SyncResponse { server_time, changes, conflicts })
    }

    /// One exchange: merges the device's changes, answers with what the device has not seen
    /// since its watermark, and records the server's time for the device. The clock gives the
    /// two times, so the outcome is that of [`Database::sync_at`] for some times.
    pub fn sync(&mut self, request: &SyncRequest) -> (r: Result<SyncResponse, SyncError>)
        requires
            old(self).wf(),
        ensures
            final(self).wf(),
            match r {
                Ok(answer) => {
                    &&& watermark_ok(request@.last_sync)
                    &&& all_valid(request@.changes)
                    &&& exists|stamp: Seq<char>|
                        {
                            &&& answer@ == #[trigger] response(
                                old(self)@,
                                request@,
                                stamp,
                                answer@.server_time,
                            )
                            &&& final(self)@ == synced(
                                old(self)@,
                                request@,
                                stamp,
                                answer@.server_time,
                            )
                        }
                },
                Err(SyncError::MalformedWatermark) => {
                    &&& !watermark_ok(request@.last_sync)
                    &&& final(self)@ == old(self)@
                },
                Err(SyncError::MalformedRecord(i)) => {
                    &&& watermark_ok(request@.last_sync)
                    &&& first_malformed(request@.changes, i as int)
                    &&& final(self)@ == old(self)@
                },
            },
    {
        let stamp = clock_rfc3339();
        let server_time = clock_rfc3339();
        let ghost at = server_time@;
        let r = self.sync_at(request, stamp.as_str(), server_time);
        proof {
            if r is Ok {
                assert(r->Ok_0@ == response(old(self)@, request@, stamp@, at));
                assert(r->Ok_0@.server_time == at);
            }
        }
        r
    }
}

} // verus!
