//! The nodes of a captured graph.

use std::marker::PhantomData;

use vstd::prelude::*;

use crate::copy2d::COPY2D_FINGERPRINT;
use crate::error::{ErrorView, GraphError};

verus! {

/// How a kernel is started: the shape of its grid, of its blocks, and its shared memory.
#[derive(Debug, Clone, Copy, PartialEq, Eq, Structural, Hash)]
pub struct KernelLaunchParams {
    pub grid_dim_x: u32,
    pub grid_dim_y: u32,
    pub grid_dim_z: u32,
    pub block_dim_x: u32,
    pub block_dim_y: u32,
    pub block_dim_z: u32,
    pub shared_mem_bytes: u32,
}

/// What a node of a graph does.
#[derive(Debug, Clone, Copy, PartialEq, Eq, Structural, Hash)]
pub enum NodeData {
    Kernel { launch_params: KernelLaunchParams },
    Memcpy,
    Memset,
    Host,
    Graph,
    Empty,
    WaitEvent,
    EventRecord,
    ExtSemasSignal,
    ExtSemasWait,
    MemAlloc,
    MemFree,
    BatchMemOp,
    Conditional,
}

/// The codes by which the driver names the types of nodes (`CUgraphNodeType`).
pub const NODE_TYPE_KERNEL: u32 = 0;

pub const NODE_TYPE_MEMCPY: u32 = 1;

pub const NODE_TYPE_MEMSET: u32 = 2;

pub const NODE_TYPE_HOST: u32 = 3;

pub const NODE_TYPE_GRAPH: u32 = 4;

pub const NODE_TYPE_EMPTY: u32 = 5;

pub const NODE_TYPE_WAIT_EVENT: u32 = 6;

pub const NODE_TYPE_EVENT_RECORD: u32 = 7;

pub const NODE_TYPE_EXT_SEMAS_SIGNAL: u32 = 8;

pub const NODE_TYPE_EXT_SEMAS_WAIT: u32 = 9;

pub const NODE_TYPE_MEM_ALLOC: u32 = 10;

pub const NODE_TYPE_MEM_FREE: u32 = 11;

pub const NODE_TYPE_BATCH_MEM_OP: u32 = 12;

pub const NODE_TYPE_CONDITIONAL: u32 = 13;

/// A node as the driver describes it. The launch parameters and the first argument mean something
/// for kernels only.
#[derive(Debug, Clone, Copy, PartialEq, Eq, Structural, Hash)]
pub struct RawNode {
    pub handle: u64,
    pub type_code: u32,
    pub launch_params: KernelLaunchParams,
    pub first_argument: u64,
}

impl RawNode {
    /// What the node does, where its type is known.
    pub open spec fn spec_data(&self) -> Option<NodeData> {
        if self.type_code == NODE_TYPE_KERNEL {
            Some(NodeData::Kernel { launch_params: self.launch_params })
        } else if self.type_code == NODE_TYPE_MEMCPY {
            Some(NodeData::Memcpy)
        } else if self.type_code == NODE_TYPE_MEMSET {
            Some(NodeData::Memset)
        } else if self.type_code == NODE_TYPE_HOST {
            Some(NodeData::Host)
        } else if self.type_code == NODE_TYPE_GRAPH {
            Some(NodeData::Graph)
        } else if self.type_code == NODE_TYPE_EMPTY {
            Some(NodeData::Empty)
        } else if self.type_code == NODE_TYPE_WAIT_EVENT {
            Some(NodeData::WaitEvent)
        } else if self.type_code == NODE_TYPE_EVENT_RECORD {
            Some(NodeData::EventRecord)
        } else if self.type_code == NODE_TYPE_EXT_SEMAS_SIGNAL {
            Some(NodeData::ExtSemasSignal)
        } else if self.type_code == NODE_TYPE_EXT_SEMAS_WAIT {
            Some(NodeData::ExtSemasWait)
        } else if self.type_code == NODE_TYPE_MEM_ALLOC {
            Some(NodeData::MemAlloc)
        } else if self.type_code == NODE_TYPE_MEM_FREE {
            Some(NodeData::MemFree)
        } else if self.type_code == NODE_TYPE_BATCH_MEM_OP {
            Some(NodeData::BatchMemOp)
        } else if self.type_code == NODE_TYPE_CONDITIONAL {
            Some(NodeData::Conditional)
        } else {
            None
        }
    }

    /// What the node does, where its type is known.
    pub fn data(&self) -> (r: Option<NodeData>)
        ensures
            r == self.spec_data(),
            self.type_code == 0 <==> (r matches Some(NodeData::Kernel { .. })),
            r matches Some(NodeData::Kernel { launch_params }) ==> launch_params
                == self.launch_params,
            r is Some <==> self.type_code <= 13,
    {
        match self.type_code {
            0 => Some(NodeData::Kernel { launch_params: self.launch_params }),
            1 => Some(NodeData::Memcpy),
            2 => Some(NodeData::Memset),
            3 => Some(NodeData::Host),
            4 => Some(NodeData::Graph),
            5 => Some(NodeData::Empty),
            6 => Some(NodeData::WaitEvent),
            7 => Some(NodeData::EventRecord),
            8 => Some(NodeData::ExtSemasSignal),
            9 => Some(NodeData::ExtSemasWait),
            10 => Some(NodeData::MemAlloc),
            11 => Some(NodeData::MemFree),
            12 => Some(NodeData::BatchMemOp),
            13 => Some(NodeData::Conditional),
            _ => None,
        }
    }

    /// Whether the node launches one of the copy kernels, which is told by its first argument.
    pub fn is_copy2d(&self) -> (r: bool)
        ensures
            r == (self.type_code == NODE_TYPE_KERNEL && self.first_argument == COPY2D_FINGERPRINT),
    {
        self.type_code == NODE_TYPE_KERNEL && self.first_argument == COPY2D_FINGERPRINT
    }
}

/// Each node is the one that the driver describes at its place.
pub open spec fn describes<'a>(raw: Seq<RawNode>, nodes: Seq<Node<'a>>) -> bool {
    &&& nodes.len() == raw.len()
    &&& forall|i: int|
        0 <= i < raw.len() ==> raw[i].spec_data() == Some((#[trigger] nodes[i]).data())
            && nodes[i].handle() == raw[i].handle
}

/// A node of a graph, valid for as long as the graph is borrowed.
#[derive(Debug, Clone, Copy, PartialEq, Eq, Hash)]
pub struct Node<'a> {
    pub(crate) data: NodeData,
    pub(crate) inner: u64,
    pub(crate) _marker: PhantomData<&'a ()>,
}

impl<'a> std::ops::Deref for Node<'a> {
    type Target = NodeData;

    fn deref(&self) -> (r: &NodeData)
        ensures
            *r == self.data(),
    {
        &self.data
    }
}

impl<'a> AsRef<NodeData> for Node<'a> {
    fn as_ref(&self) -> (r: &NodeData)
        ensures
            *r == self.data(),
    {
        &self.data
    }
}

impl<'a> Node<'a> {
    /// What the node does.
    pub closed spec fn data(&self) -> NodeData {
        self.data
    }

    /// The handle by which the driver knows the node.
    pub closed spec fn handle(&self) -> u64 {
        self.inner
    }

    pub(crate) fn new(data: NodeData, inner: u64) -> (r: Node<'a>)
        ensures
            r.data() == data,
            r.handle() == inner,
    {
        Node { data, inner, _marker: PhantomData }
    }

    /// The handle by which the driver knows the node.
    pub fn inner(&self) -> (r: u64)
        ensures
            r == self.handle(),
    {
        self.inner
    }

    pub fn is_kernel(&self) -> (r: bool)
        ensures
            r == (self.data() is Kernel),
    {
        matches!(self.data, NodeData::Kernel { .. })
    }

    /// Records new launch parameters on a kernel node and hands back what has to be written into
    /// the node's parameters on the driver's side. The record is made before the driver is asked.
    pub fn update_kernel_launch_params(&mut self, launch_params: KernelLaunchParams) -> (r: Result<
        KernelLaunchParams,
        GraphError,
    >)
        ensures
            final(self).handle() == old(self).handle(),
            match r {
                Ok(params) => {
                    &&& old(self).data() is Kernel
                    &&& params == launch_params
                    &&& final(self).data() == (NodeData::Kernel { launch_params })
                },
                Err(e) => {
                    &&& !(old(self).data() is Kernel)
                    &&& e@ == ErrorView::NotAKernelNode
                    &&& final(self).data() == old(self).data()
                },
            },
    {
        match self.data {
            NodeData::Kernel { .. } => {
                self.data = NodeData::Kernel { launch_params };
                Ok(launch_params)
            },
            _ => Err(GraphError::NotAKernelNode),
        }
    }
}

} // verus!
