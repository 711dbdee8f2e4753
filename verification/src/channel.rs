//! The channel: what the guest remembers of its context on the card.
use vstd::prelude::*;

use crate::bytes::ByteOrder;
use crate::cache::{ImageCache, ImageKey};
use crate::name::GetName;
use crate::platform::Platform;
use crate::protocol::{
    CrossDomainCmd, CrossDomainPoll, ImageRequirements, CROSS_DOMAIN_CHANNEL_RING,
};
use crate::request::Step;
use crate::submit::{spec_submit_cmd, submit_cmd, Submit};

verus! {

/// How the card's file is to be opened.
#[derive(Debug)]
pub struct CardOptions {
    pub path: String,
    pub read: bool,
    pub write: bool,
    pub custom_flags: i32,
}

/// A channel to the host over one card. The addresses and handles of its rings
/// are zero until the context has been created.
pub struct VirtgpuChannel {
    pub platform: Platform,
    pub channel_ring_addr: usize,
    pub channel_ring_handle: u32,
    pub query_ring_addr: usize,
    pub query_ring_handle: u32,
    pub image_query_cache: ImageCache,
}

/// The mathematical value of a [`VirtgpuChannel`].
#[verifier::ext_equal]
pub struct Channel {
    pub platform: Platform,
    pub channel_ring_addr: usize,
    pub channel_ring_handle: u32,
    pub query_ring_addr: usize,
    pub query_ring_handle: u32,
    pub image_query_cache: Map<ImageKey, ImageRequirements>,
}

impl View for VirtgpuChannel {
    type V = Channel;

    open spec fn view(&self) -> Channel {
        Channel {
            platform: self.platform,
            channel_ring_addr: self.channel_ring_addr,
            channel_ring_handle: self.channel_ring_handle,
            query_ring_addr: self.query_ring_addr,
            query_ring_handle: self.query_ring_handle,
            image_query_cache: self.image_query_cache@,
        }
    }
}

impl Channel {
    /// The byte order of what the channel exchanges.
    pub open spec fn order(self) -> ByteOrder {
        self.platform.byte_order
    }

    /// A channel without rings and without answers.
    pub open spec fn fresh(platform: Platform) -> Channel {
        Channel {
            platform,
            channel_ring_addr: 0,
            channel_ring_handle: 0,
            query_ring_addr: 0,
            query_ring_handle: 0,
            image_query_cache: Map::empty(),
        }
    }
}

/// The poll command on its way to the host.
pub open spec fn spec_channel_poll(order: ByteOrder) -> Step<Submit, (), Seq<u8>> {
    spec_submit_cmd(CrossDomainPoll::spec_next().wire(order), CROSS_DOMAIN_CHANNEL_RING, 0, false)
}

/// Submits the poll command, which signals the channel ring.
pub fn submit_poll(order: ByteOrder) -> (step: Step<Submit, (), Vec<u8>>)
    ensures
        step@ == spec_channel_poll(order),
{
    let cmd = CrossDomainPoll::next();
    let nothing: Vec<u8> = Vec::new();
    assert(cmd.wire(order) + nothing@ =~= cmd.wire(order));
    submit_cmd(order, &cmd, &nothing, CROSS_DOMAIN_CHANNEL_RING, 0, false)
}

impl VirtgpuChannel {
    /// A channel over the card at `path`, on the system that the crate is built
    /// for, and how the card is to be opened: to read and write, and so that no
    /// call on it waits.
    pub fn open(path: &str) -> (opened: (VirtgpuChannel, CardOptions))
        ensures
            opened.0@ == Channel::fresh(opened.0.platform),
            opened.0.platform.usable(),
            opened.0.channel_ring_addr == 0,
            opened.0.channel_ring_handle == 0,
            opened.0.query_ring_addr == 0,
            opened.0.query_ring_handle == 0,
            opened.0.image_query_cache@ == Map::<ImageKey, ImageRequirements>::empty(),
            opened.1.path@ == path@,
            opened.1.read,
            opened.1.write,
            opened.1.custom_flags == opened.0.platform.o_nonblock,
    {
        Self::open_on(Platform::current(), path)
    }

    /// A channel over the card at `path` on a given system.
    pub fn open_on(platform: Platform, path: &str) -> (opened: (VirtgpuChannel, CardOptions))
        ensures
            opened.0@ == Channel::fresh(platform),
            opened.0.platform == platform,
            opened.0.channel_ring_addr == 0,
            opened.0.channel_ring_handle == 0,
            opened.0.query_ring_addr == 0,
            opened.0.query_ring_handle == 0,
            opened.0.image_query_cache@ == Map::<ImageKey, ImageRequirements>::empty(),
            opened.1.path@ == path@,
            opened.1.read,
            opened.1.write,
            opened.1.custom_flags == platform.o_nonblock,
    {
        let channel = VirtgpuChannel {
            platform,
            channel_ring_addr: 0,
            channel_ring_handle: 0,
            query_ring_addr: 0,
            query_ring_handle: 0,
            image_query_cache: ImageCache::new(),
        };
        let options = CardOptions {
            path: path.to_owned(),
            read: true,
            write: true,
            custom_flags: platform.o_nonblock,
        };
        (channel, options)
    }

    /// Asks the driver for its name.
    pub fn get_name(&self) -> (step: Step<GetName, Vec<u8>, Vec<u8>>)
        ensures
            step@ == GetName::spec_start(),
    {
        GetName::start()
    }

    /// Lets the host put its next message into the channel ring.
    pub fn channel_poll(&self) -> (step: Step<Submit, (), Vec<u8>>)
        ensures
            step@ == spec_channel_poll(self.platform.byte_order),
    {
        submit_poll(self.platform.byte_order)
    }
}

} // verus!
