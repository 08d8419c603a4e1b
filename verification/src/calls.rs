//! Models of the calls that the engine makes on its components, each with its arguments and
//! the reply to it.

use vstd::prelude::*;

use crate::atom::AtomView;
use crate::model::{
    ErrorView, FilterView, NewAtomView, QuestionView, StorageStats, TimeWindow, WorldActionView,
};
use crate::single::Single;

verus! {

/// A call on a storage.
#[allow(inconsistent_fields)]
pub ghost enum StorageCall {
    Append { atom: AtomView, reply: Result<(), ErrorView> },
    Get { ids: Seq<Seq<char>>, reply: Result<Seq<AtomView>, ErrorView> },
    Scan { world: Seq<char>, filter: FilterView, reply: Result<Seq<AtomView>, ErrorView> },
    Stats { world: Seq<char>, reply: Result<StorageStats, ErrorView> },
    Window { world: Seq<char>, window: TimeWindow, reply: Result<Seq<Seq<char>>, ErrorView> },
    Delete { world: Seq<char>, ids: Seq<Seq<char>>, reply: Result<usize, ErrorView> },
    Worlds { reply: Result<Seq<Seq<char>>, ErrorView> },
}

/// A call on a vector index.
#[allow(inconsistent_fields)]
pub ghost enum VectorCall {
    Upsert {
        world: Seq<char>,
        id: Seq<char>,
        vector: Seq<Single>,
        reply: Result<(), ErrorView>,
    },
    Search {
        world: Seq<char>,
        query: Seq<Single>,
        k: usize,
        filter: FilterView,
        reply: Result<Seq<Seq<char>>, ErrorView>,
    },
    Rebuild { world: Seq<char>, reply: Result<(), ErrorView> },
}

/// A call on the streams.
#[allow(inconsistent_fields)]
pub ghost enum StreamCall {
    Publish { atom: AtomView, reply: Result<(), ErrorView> },
    Subscribe { world: Seq<char>, filter: FilterView, reply: Result<(), ErrorView> },
    Poll { reply: Result<Option<AtomView>, ErrorView> },
    Stop { reply: Result<(), ErrorView> },
}

/// A call on an embedder.
pub ghost struct EmbedCall {
    pub payload: Seq<char>,
    pub reply: Result<Option<Seq<Single>>, ErrorView>,
}

/// A call on a gatekeeper.
pub ghost enum GateCall {
    Remember { atom: NewAtomView, reply: Result<(), ErrorView> },
    Ask { question: QuestionView, reply: Result<(), ErrorView> },
    World { action: WorldActionView, reply: Result<(), ErrorView> },
}

/// The calls on the components of an engine, each component's in the order they were made.
#[verifier::ext_equal]
pub ghost struct Calls {
    pub storage: Seq<StorageCall>,
    pub vector: Seq<VectorCall>,
    pub stream: Seq<StreamCall>,
    pub gate: Seq<GateCall>,
    pub embed: Seq<EmbedCall>,
}

impl Calls {
    /// No call.
    pub open spec fn none() -> Calls {
        Calls {
            storage: Seq::empty(),
            vector: Seq::empty(),
            stream: Seq::empty(),
            gate: Seq::empty(),
            embed: Seq::empty(),
        }
    }

    /// Calls on the storage alone.
    pub open spec fn on_storage(calls: Seq<StorageCall>) -> Calls {
        Calls { storage: calls, ..Calls::none() }
    }

    /// Calls on the vector index alone.
    pub open spec fn on_vector(calls: Seq<VectorCall>) -> Calls {
        Calls { vector: calls, ..Calls::none() }
    }

    /// Calls on the streams alone.
    pub open spec fn on_stream(calls: Seq<StreamCall>) -> Calls {
        Calls { stream: calls, ..Calls::none() }
    }

    /// A call on the gatekeeper alone.
    pub open spec fn on_gate(call: GateCall) -> Calls {
        Calls { gate: seq![call], ..Calls::none() }
    }

    /// A call on the embedder alone.
    pub open spec fn on_embedder(call: EmbedCall) -> Calls {
        Calls { embed: seq![call], ..Calls::none() }
    }

    /// These calls and then the others.
    pub open spec fn plus(self, other: Calls) -> Calls {
        Calls {
            storage: self.storage + other.storage,
            vector: self.vector + other.vector,
            stream: self.stream + other.stream,
            gate: self.gate + other.gate,
            embed: self.embed + other.embed,
        }
    }
}

/// Calls may be joined in any grouping.
pub broadcast proof fn plus_is_associative(a: Calls, b: Calls, c: Calls)
    ensures
        #[trigger] a.plus(b).plus(c) == a.plus(b.plus(c)),
{
    assert(a.plus(b).plus(c) =~= a.plus(b.plus(c)));
}

/// No call makes no difference.
pub broadcast proof fn plus_none(a: Calls)
    ensures
        #[trigger] a.plus(Calls::none()) == a,
{
    assert(a.plus(Calls::none()) =~= a);
}

pub broadcast group group_calls {
    plus_is_associative,
    plus_none,
}

}
