//! Cabinet identities, the catalog of their impulse responses, and the
//! selection state that decides routing and latency.

use vstd::prelude::*;
use crate::convolution::ConvolutionError;

verus! {

/// Number of cabinet identities, `Direct` included.
pub const CABINET_COUNT: usize = 5;

/// Number of cabinets that are simulated by convolution (all but `Direct`).
pub const CONVOLVED_CABINET_COUNT: usize = 4;

/// The speaker cabinets that can be simulated; `Direct` bypasses simulation.
#[derive(Debug, Clone, Copy, PartialEq, Eq, Hash, Structural)]
pub enum CabinetType {
    Marshall4x12V30,
    FenderTwin2x12,
    VoxAC30Blue,
    Mesa4x12Recto,
    Direct,
}

impl CabinetType {
    /// Ordinal of the identity, in declaration order.
    pub open spec fn index(self) -> nat {
        match self {
            CabinetType::Marshall4x12V30 => 0,
            CabinetType::FenderTwin2x12 => 1,
            CabinetType::VoxAC30Blue => 2,
            CabinetType::Mesa4x12Recto => 3,
            CabinetType::Direct => 4,
        }
    }

    /// The identity with a given ordinal; out-of-range ordinals fall back to
    /// the default cabinet, `Marshall4x12V30`.
    pub open spec fn at_index(index: int) -> CabinetType {
        if index == 1 {
            CabinetType::FenderTwin2x12
        } else if index == 2 {
            CabinetType::VoxAC30Blue
        } else if index == 3 {
            CabinetType::Mesa4x12Recto
        } else if index == 4 {
            CabinetType::Direct
        } else {
            CabinetType::Marshall4x12V30
        }
    }

    pub open spec fn spec_name(self) -> Seq<char> {
        match self {
            CabinetType::Marshall4x12V30 => "Marshall 4x12 V30"@,
            CabinetType::FenderTwin2x12 => "Fender Twin 2x12"@,
            CabinetType::VoxAC30Blue => "Vox AC30 Blue"@,
            CabinetType::Mesa4x12Recto => "Mesa 4x12 Recto"@,
            CabinetType::Direct => "Direct"@,
        }
    }

    pub open spec fn spec_id(self) -> Seq<char> {
        match self {
            CabinetType::Marshall4x12V30 => "marshall_4x12_v30"@,
            CabinetType::FenderTwin2x12 => "fender_twin_2x12"@,
            CabinetType::VoxAC30Blue => "vox_ac30_blue"@,
            CabinetType::Mesa4x12Recto => "mesa_4x12_recto"@,
            CabinetType::Direct => "direct"@,
        }
    }

    pub open spec fn spec_ir_file_name(self) -> Option<Seq<char>> {
        match self {
            CabinetType::Marshall4x12V30 => Some("marshall_4x12_v30.wav"@),
            CabinetType::FenderTwin2x12 => Some("fender_twin_2x12.wav"@),
            CabinetType::VoxAC30Blue => Some("vox_ac30_blue.wav"@),
            CabinetType::Mesa4x12Recto => Some("mesa_4x12_recto.wav"@),
            CabinetType::Direct => None,
        }
    }

    /// Ordinal of the identity, in declaration order.
    pub fn to_index(self) -> (r: usize)
        ensures
            r == self.index(),
            r < CABINET_COUNT,
    {
        match self {
            CabinetType::Marshall4x12V30 => 0,
            CabinetType::FenderTwin2x12 => 1,
            CabinetType::VoxAC30Blue => 2,
            CabinetType::Mesa4x12Recto => 3,
            CabinetType::Direct => 4,
        }
    }

    /// The identity with a given ordinal; out-of-range ordinals give `Marshall4x12V30`.
    pub fn from_index(index: usize) -> (r: CabinetType)
        ensures
            r == CabinetType::at_index(index as int),
    {
        match index {
            1 => CabinetType::FenderTwin2x12,
            2 => CabinetType::VoxAC30Blue,
            3 => CabinetType::Mesa4x12Recto,
            4 => CabinetType::Direct,
            _ => CabinetType::Marshall4x12V30,
        }
    }

    /// Display name of the cabinet.
    pub fn name(self) -> (r: &'static str)
        ensures
            r@ == self.spec_name(),
    {
        match self {
            CabinetType::Marshall4x12V30 => "Marshall 4x12 V30",
            CabinetType::FenderTwin2x12 => "Fender Twin 2x12",
            CabinetType::VoxAC30Blue => "Vox AC30 Blue",
            CabinetType::Mesa4x12Recto => "Mesa 4x12 Recto",
            CabinetType::Direct => "Direct",
        }
    }

    /// Stable identifier of the cabinet, for saved settings.
    pub fn id(self) -> (r: &'static str)
        ensures
            r@ == self.spec_id(),
    {
        match self {
            CabinetType::Marshall4x12V30 => "marshall_4x12_v30",
            CabinetType::FenderTwin2x12 => "fender_twin_2x12",
            CabinetType::VoxAC30Blue => "vox_ac30_blue",
            CabinetType::Mesa4x12Recto => "mesa_4x12_recto",
            CabinetType::Direct => "direct",
        }
    }

    /// Display names of all cabinets, by ordinal.
    pub fn variants() -> (r: Vec<&'static str>)
        ensures
            r@.len() == CABINET_COUNT,
            forall|i: int| 0 <= i < CABINET_COUNT ==> r@[i]@ == CabinetType::at_index(i).spec_name(),
    {
        let mut r: Vec<&'static str> = Vec::new();
        let mut i: usize = 0;
        while i < CABINET_COUNT
            invariant
                i <= CABINET_COUNT,
                r@.len() == i,
                forall|j: int| 0 <= j < i ==> r@[j]@ == CabinetType::at_index(j).spec_name(),
            decreases CABINET_COUNT - i,
        {
            r.push(CabinetType::from_index(i).name());
            i = i + 1;
        }
        r
    }

    /// Identifiers of all cabinets, by ordinal.
    pub fn ids() -> (r: Vec<&'static str>)
        ensures
            r@.len() == CABINET_COUNT,
            forall|i: int| 0 <= i < CABINET_COUNT ==> r@[i]@ == CabinetType::at_index(i).spec_id(),
    {
        let mut r: Vec<&'static str> = Vec::new();
        let mut i: usize = 0;
        while i < CABINET_COUNT
            invariant
                i <= CABINET_COUNT,
                r@.len() == i,
                forall|j: int| 0 <= j < i ==> r@[j]@ == CabinetType::at_index(j).spec_id(),
            decreases CABINET_COUNT - i,
        {
            r.push(CabinetType::from_index(i).id());
            i = i + 1;
        }
        r
    }

    /// File name of the cabinet's impulse response; `Direct` has none.
    pub fn ir_file_name(self) -> (r: Option<&'static str>)
        ensures
            match r {
                Some(s) => self.spec_ir_file_name() == Some(s@),
                None => self.spec_ir_file_name() is None,
            },
    {
        match self {
            CabinetType::Marshall4x12V30 => Some("marshall_4x12_v30.wav"),
            CabinetType::FenderTwin2x12 => Some("fender_twin_2x12.wav"),
            CabinetType::VoxAC30Blue => Some("vox_ac30_blue.wav"),
            CabinetType::Mesa4x12Recto => Some("mesa_4x12_recto.wav"),
            CabinetType::Direct => None,
        }
    }

    /// Whether the cabinet is simulated by convolution.
    pub fn is_convolved(self) -> (r: bool)
        ensures
            r == (self != CabinetType::Direct),
    {
        match self {
            CabinetType::Direct => false,
            _ => true,
        }
    }
}

/// The impulse response of every convolved cabinet, stored by ordinal.
pub struct CabinetCatalog<T> {
    impulses: Vec<Vec<T>>,
}

impl<T> CabinetCatalog<T> {
    pub closed spec fn wf(&self) -> bool {
        self.impulses@.len() == CONVOLVED_CABINET_COUNT
    }

    /// The impulse response stored for a convolved cabinet.
    pub closed spec fn impulse_of(&self, c: CabinetType) -> Seq<T>
        recommends
            c != CabinetType::Direct,
    {
        self.impulses@[c.index() as int]@
    }

    /// A catalog holding one impulse response per convolved cabinet.
    pub fn new(marshall: Vec<T>, fender: Vec<T>, vox: Vec<T>, mesa: Vec<T>) -> (r: Self)
        ensures
            r.wf(),
            r.impulse_of(CabinetType::Marshall4x12V30) == marshall@,
            r.impulse_of(CabinetType::FenderTwin2x12) == fender@,
            r.impulse_of(CabinetType::VoxAC30Blue) == vox@,
            r.impulse_of(CabinetType::Mesa4x12Recto) == mesa@,
    {
        let mut impulses: Vec<Vec<T>> = Vec::with_capacity(CONVOLVED_CABINET_COUNT);
        impulses.push(marshall);
        impulses.push(fender);
        impulses.push(vox);
        impulses.push(mesa);
        CabinetCatalog { impulses }
    }

    /// The impulse response of `cabinet`; `Direct` has none.
    pub fn impulse_response(&self, cabinet: CabinetType) -> (r: Option<&Vec<T>>)
        requires
            self.wf(),
        ensures
            match r {
                Some(ir) => cabinet != CabinetType::Direct && ir@ == self.impulse_of(cabinet),
                None => cabinet == CabinetType::Direct,
            },
    {
        if cabinet.is_convolved() {
            Some(&self.impulses[cabinet.to_index()])
        } else {
            None
        }
    }

    /// Stores `ir` as the impulse response of `cabinet` and hands back the one
    /// it replaces; `Direct` stores nothing and gets `ir` back.
    pub fn replace(&mut self, cabinet: CabinetType, ir: Vec<T>) -> (r: Vec<T>)
        requires
            old(self).wf(),
        ensures
            final(self).wf(),
            cabinet == CabinetType::Direct ==> r@ == ir@ && forall|c: CabinetType|
                c != CabinetType::Direct ==> #[trigger] final(self).impulse_of(c) == old(self).impulse_of(c),
            cabinet != CabinetType::Direct ==> {
                &&& r@ == old(self).impulse_of(cabinet)
                &&& final(self).impulse_of(cabinet) == ir@
                &&& forall|c: CabinetType|
                    c != CabinetType::Direct && c != cabinet ==> #[trigger] final(self).impulse_of(c)
                        == old(self).impulse_of(c)
            },
    {
        if cabinet.is_convolved() {
            let mut displaced = ir;
            self.impulses.set_and_swap(cabinet.to_index(), &mut displaced);
            proof {
                assert forall|c: CabinetType|
                    c != CabinetType::Direct && c != cabinet implies #[trigger] self.impulse_of(c)
                    == old(self).impulse_of(c) by {
                    assert(c.index() != cabinet.index());
                }
            }
            displaced
        } else {
            ir
        }
    }
}

/// Which cabinet is active, and what that means for routing and latency.
///
/// The active cabinet changes only through a successful load: a failed load
/// leaves the previous cabinet in place.
pub struct CabinetSelection {
    current: CabinetType,
    block_size: usize,
}

impl CabinetSelection {
    pub closed spec fn current(&self) -> CabinetType {
        self.current
    }

    pub closed spec fn spec_block_size(&self) -> nat {
        self.block_size as nat
    }

    /// Latency of the cabinet stage: none when bypassed, one block otherwise.
    pub open spec fn spec_latency(&self) -> nat {
        if self.current() == CabinetType::Direct {
            0
        } else {
            self.spec_block_size()
        }
    }

    /// The selection at start-up: the default cabinet, `Marshall4x12V30`.
    pub fn new(block_size: usize) -> (r: Self)
        ensures
            r.current() == CabinetType::Marshall4x12V30,
            r.spec_block_size() == block_size,
    {
        CabinetSelection { current: CabinetType::Marshall4x12V30, block_size }
    }

    pub fn get_current_cabinet(&self) -> (r: CabinetType)
        ensures
            r == self.current(),
    {
        self.current
    }

    /// Processing latency in samples.
    pub fn get_latency(&self) -> (r: usize)
        ensures
            r == self.spec_latency(),
    {
        match self.current {
            CabinetType::Direct => 0,
            _ => self.block_size,
        }
    }

    /// Whether samples pass through unchanged, with no convolution at all.
    pub fn is_bypassed(&self) -> (r: bool)
        ensures
            r == (self.current() == CabinetType::Direct),
    {
        !self.current.is_convolved()
    }

    /// Routes one sample: with `Direct` active it comes back unchanged, ready
    /// to be output; otherwise `None` says it must go through convolution.
    pub fn pass_through<T>(&self, input: T) -> (r: Option<T>)
        ensures
            self.current() == CabinetType::Direct ==> r == Some(input),
            self.current() != CabinetType::Direct ==> r is None,
    {
        if self.current.is_convolved() {
            None
        } else {
            Some(input)
        }
    }

    /// Whether selecting `requested` means loading a cabinet: only a change of
    /// identity does.
    pub fn needs_reload(&self, requested: CabinetType) -> (r: bool)
        ensures
            r == (requested != self.current()),
    {
        requested != self.current
    }

    /// Records the outcome of loading `requested`: on success it becomes the
    /// active cabinet, on failure the previous one stays. The outcome is
    /// passed on.
    pub fn commit(&mut self, requested: CabinetType, outcome: Result<(), ConvolutionError>) -> (r:
        Result<(), ConvolutionError>)
        ensures
            r == outcome,
            final(self).spec_block_size() == old(self).spec_block_size(),
            final(self).current() == if outcome is Ok {
                requested
            } else {
                old(self).current()
            },
    {
        if outcome.is_ok() {
            self.current = requested;
        }
        outcome
    }
}

/// With `Direct` active the cabinet stage adds no latency.
pub proof fn lemma_direct_has_no_latency(s: CabinetSelection)
    requires
        s.current() == CabinetType::Direct,
    ensures
        s.spec_latency() == 0,
{
}

/// With a convolved cabinet active the latency is exactly one block.
pub proof fn lemma_convolved_latency_is_block_size(s: CabinetSelection)
    requires
        s.current() != CabinetType::Direct,
    ensures
        s.spec_latency() == s.spec_block_size(),
{
}

/// Every identity survives the round trip through its ordinal.
pub proof fn lemma_index_round_trip(c: CabinetType)
    ensures
        CabinetType::at_index(c.index() as int) == c,
        c.index() < CABINET_COUNT,
{
}

/// Ordinals below `CABINET_COUNT` survive the round trip through the identity.
pub proof fn lemma_ordinal_round_trip(i: int)
    requires
        0 <= i < CABINET_COUNT,
    ensures
        CabinetType::at_index(i).index() == i,
{
}

} // verus!
