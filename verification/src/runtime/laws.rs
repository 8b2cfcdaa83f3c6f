//! Which configurations a device takes, and in which order its resources come and go.

use vstd::prelude::*;

use super::{
    closing_failures, config_error, jetty_config_error, native_place, shutdown_failures, Resource,
    RuntimeConfig, RuntimeView, StartupStage, UrmaDeviceCapability,
};
use crate::error::ErrorView;
use crate::jetty::JettyConfig;
use crate::provider::FfiError;

verus! {

/// A device takes a configuration exactly where the slots can be laid out, it has two completion
/// queues, neither is to be empty or deeper than it allows, and a slot fits in one message.
pub proof fn configurations_are_taken_exactly_when(
    config: RuntimeConfig,
    capability: UrmaDeviceCapability,
)
    ensures
        config_error(config, capability) is None <==> {
            &&& config.buffer_pool.layout_error() is None
            &&& capability.max_jfc >= 2
            &&& 1 <= config.send_jfc_depth <= capability.max_jfc_depth
            &&& 1 <= config.recv_jfc_depth <= capability.max_jfc_depth
            &&& config.buffer_pool.slot_size <= capability.max_msg_size
        },
{
}

/// A device takes the sizes of a Jetty exactly where it has a Jetty with both queues, each size is
/// neither zero nor more than it allows, and it has a remote list entry.
pub proof fn jetty_sizes_are_taken_exactly_when(config: JettyConfig, capability: UrmaDeviceCapability)
    ensures
        jetty_config_error(config, capability) is None <==> {
            &&& capability.max_jetty > 0
            &&& capability.max_jfs > 0
            &&& capability.max_jfr > 0
            &&& 1 <= config.send_depth <= capability.max_jfs_depth
            &&& 1 <= config.recv_depth <= capability.max_jfr_depth
            &&& 1 <= config.max_send_sge <= capability.max_jfs_sge
            &&& 1 <= config.max_recv_sge <= capability.max_jfr_sge
            &&& capability.max_jfs_rsge > 0
        },
{
}

/// A connection negotiates over what the device has: each of its numbers, and the address that was
/// selected.
pub proof fn negotiated_capabilities_are_the_device_s(capability: UrmaDeviceCapability)
    ensures
        ({
            let wire = capability.negotiated();
            &&& wire.transport_type == capability.transport_type
            &&& wire.eid_index == capability.selected_eid_index
            &&& wire.max_jfc_depth == capability.max_jfc_depth
            &&& wire.max_jfs_depth == capability.max_jfs_depth
            &&& wire.max_jfr_depth == capability.max_jfr_depth
            &&& wire.max_jfs_sge == capability.max_jfs_sge
            &&& wire.max_jfr_sge == capability.max_jfr_sge
            &&& wire.max_msg_size == capability.max_msg_size
            &&& wire.transport_modes == capability.transport_modes
        }),
{
}

/// A runtime opens a connection exactly while it is accepting, its device takes the Jetty, it has a
/// number left, and none of its resources was closed.
pub proof fn connections_are_opened_exactly_when(runtime: RuntimeView, config: JettyConfig)
    ensures
        runtime.connection_error(config) is None <==> {
            &&& runtime.accepting
            &&& jetty_config_error(config, runtime.capability) is None
            &&& runtime.next_connection_id < u16::MAX
            &&& runtime.native
            &&& runtime.send_jfc
            &&& runtime.recv_jfc
            &&& runtime.jfce
            &&& runtime.pool is Some
        },
{
}

/// Every resource that is open is closed by a shutdown, once, and no other is; each is closed before
/// what it was made from.
pub proof fn shutdowns_close_every_resource_once(runtime: RuntimeView)
    ensures
        ({
            let order = runtime.shutdown_order();
            &&& order.no_duplicates()
            &&& order.contains(Resource::RecvJfc) <==> runtime.recv_jfc
            &&& order.contains(Resource::SendJfc) <==> runtime.send_jfc
            &&& order.contains(Resource::Jfce) <==> runtime.jfce
            &&& order.contains(Resource::Segment) <==> runtime.pool is Some
            &&& order.contains(Resource::Native) <==> runtime.native
            &&& forall|i: int, j: int|
                0 <= i < j < order.len() ==> closing_rank(#[trigger] order[i]) < closing_rank(
                    #[trigger] order[j],
                )
        }),
{
    let order = runtime.shutdown_order();
    let recv: int = if runtime.recv_jfc {
        1
    } else {
        0
    };
    let send: int = if runtime.send_jfc {
        1
    } else {
        0
    };
    let jfce: int = if runtime.jfce {
        1
    } else {
        0
    };
    let pool: int = if runtime.pool is Some {
        1
    } else {
        0
    };
    if runtime.recv_jfc {
        assert(order[0] == Resource::RecvJfc);
    }
    if runtime.send_jfc {
        assert(order[recv] == Resource::SendJfc);
    }
    if runtime.jfce {
        assert(order[recv + send] == Resource::Jfce);
    }
    if runtime.pool is Some {
        assert(order[recv + send + jfce] == Resource::Segment);
    }
    if runtime.native {
        assert(order[recv + send + jfce + pool] == Resource::Native);
    }
}

/// Where a resource stands in the order of a shutdown.
pub open spec fn closing_rank(resource: Resource) -> int {
    match resource {
        Resource::RecvJfc => 0,
        Resource::SendJfc => 1,
        Resource::Jfce => 2,
        Resource::Segment => 3,
        Resource::Native => 4,
    }
}

/// A start-up goes through its stages one by one: it opens the device, asks and checks it, makes the
/// event channel, then the two queues, then registers the segment.
pub proof fn startups_go_stage_by_stage()
    ensures
        ({
            let query = StartupStage::Open.successor();
            let validate = query.successor();
            let jfce = validate.successor();
            let send = jfce.successor();
            let recv = send.successor();
            let segment = recv.successor();
            let ready = segment.successor();
            &&& query == StartupStage::Query
            &&& validate == StartupStage::Validate
            &&& jfce == StartupStage::CreateJfce
            &&& send == StartupStage::CreateSendJfc
            &&& recv == StartupStage::CreateRecvJfc
            &&& segment == StartupStage::RegisterSegment
            &&& ready == StartupStage::Ready
            &&& ready.successor() == ready
            &&& StartupStage::Open.created().len() == 0
            &&& query.created() == seq![Resource::Native]
            &&& send.created() == jfce.created().push(Resource::Jfce)
            &&& recv.created() == send.created().push(Resource::SendJfc)
            &&& segment.created() == recv.created().push(Resource::RecvJfc)
            &&& ready.created() == segment.created().push(Resource::Segment)
        }),
{
    let jfce = StartupStage::CreateJfce;
    let send = StartupStage::CreateSendJfc;
    let recv = StartupStage::CreateRecvJfc;
    let segment = StartupStage::RegisterSegment;
    let ready = StartupStage::Ready;
    assert(send.created() =~= jfce.created().push(Resource::Jfce));
    assert(recv.created() =~= send.created().push(Resource::SendJfc));
    assert(segment.created() =~= recv.created().push(Resource::RecvJfc));
    assert(ready.created() =~= segment.created().push(Resource::Segment));
}

/// Every closing that failed is told of, once and in order, and one that did not fail is not: those of
/// two lists are those of the first and then those of the second.
pub proof fn failed_closings_are_told_in_order(
    earlier: Seq<(Resource, core::result::Result<(), FfiError>)>,
    later: Seq<(Resource, core::result::Result<(), FfiError>)>,
    resource: Resource,
    failure: FfiError,
)
    ensures
        closing_failures(earlier + later) == closing_failures(earlier) + closing_failures(later),
        closing_failures(seq![(resource, Err::<(), FfiError>(failure))]) == seq![
            failure.mapped(resource.closing()).text(),
        ],
        closing_failures(seq![(resource, Ok::<(), FfiError>(()))]).len() == 0,
    decreases later.len(),
{
    reveal_with_fuel(closing_failures, 2);
    let failed = seq![(resource, Err::<(), FfiError>(failure))];
    let closed = seq![(resource, Ok::<(), FfiError>(()))];
    assert(failed.drop_last() =~= Seq::<(Resource, core::result::Result<(), FfiError>)>::empty());
    assert(closed.drop_last() =~= Seq::<(Resource, core::result::Result<(), FfiError>)>::empty());
    assert(closing_failures(failed) =~= seq![failure.mapped(resource.closing()).text()]);
    if later.len() == 0 {
        assert(earlier + later =~= earlier);
        assert(closing_failures(earlier) + closing_failures(later) =~= closing_failures(earlier));
    } else {
        failed_closings_are_told_in_order(earlier, later.drop_last(), resource, failure);
        assert((earlier + later).drop_last() =~= earlier + later.drop_last());
        assert((earlier + later).last() == later.last());
        assert(closing_failures(earlier + later) =~= closing_failures(earlier) + closing_failures(
            later,
        ));
    }
}

/// A pool that could not be closed is told of after what was closed before the native runtime, and
/// before that; one that was closed is not told of.
pub proof fn pool_failures_come_before_the_native_runtime(
    before: Seq<(Resource, core::result::Result<(), FfiError>)>,
    native: core::result::Result<(), FfiError>,
    error: ErrorView,
)
    requires
        forall|i: int| 0 <= i < before.len() ==> (#[trigger] before[i]).0 != Resource::Native,
    ensures
        ({
            let closings = before.push((Resource::Native, native));
            let last = seq![(Resource::Native, native)];
            &&& shutdown_failures(closings, Some(error)) == closing_failures(before)
                + seq![error.text()] + closing_failures(last)
            &&& shutdown_failures(closings, None) == closing_failures(before) + closing_failures(
                last,
            )
        }),
{
    let closings = before.push((Resource::Native, native));
    lemma_native_place(before, native);
    assert(closings.take(before.len() as int) =~= before);
    assert(closings.skip(before.len() as int) =~= seq![(Resource::Native, native)]);
    assert(closing_failures(before) + Seq::<Seq<char>>::empty() =~= closing_failures(before));
}

proof fn lemma_native_place(
    before: Seq<(Resource, core::result::Result<(), FfiError>)>,
    native: core::result::Result<(), FfiError>,
)
    requires
        forall|i: int| 0 <= i < before.len() ==> (#[trigger] before[i]).0 != Resource::Native,
    ensures
        native_place(before.push((Resource::Native, native))) == before.len(),
    decreases before.len(),
{
    let closings = before.push((Resource::Native, native));
    if before.len() > 0 {
        assert(closings[0] == before[0]);
        assert(closings.drop_first() =~= before.drop_first().push((Resource::Native, native)));
        assert forall|i: int| 0 <= i < before.drop_first().len() implies (
        #[trigger] before.drop_first()[i]).0 != Resource::Native by {
            assert(before.drop_first()[i] == before[i + 1]);
        }
        lemma_native_place(before.drop_first(), native);
    }
}

} // verus!
