//! The description of a chip that the extractors fill in: cores, their
//! peripherals, and the records attached to each peripheral.
//!
//! Every type has a view that replaces strings by sequences of characters and
//! vectors by sequences; the contracts of the extractors are stated over these
//! views.

use vstd::prelude::*;

verus! {

/// A DMA request of a peripheral, routed through a DMA multiplexer.
#[derive(Clone, Debug, PartialEq, Eq)]
pub struct DmaChannel {
    /// Which of the peripheral's requests this is.
    pub signal: String,
    /// The multiplexer that routes the request.
    pub dmamux: Option<String>,
    /// The number by which the multiplexer selects the request.
    pub request: u8,
}

/// The view of a [`DmaChannel`].
pub struct DmaChannelView {
    pub signal: Seq<char>,
    pub dmamux: Option<Seq<char>>,
    pub request: u8,
}

impl View for DmaChannel {
    type V = DmaChannelView;

    open spec fn view(&self) -> DmaChannelView {
        DmaChannelView {
            signal: self.signal@,
            dmamux: match self.dmamux {
                Some(name) => Some(name@),
                None => None,
            },
            request: self.request,
        }
    }
}

/// An interrupt of a peripheral.
#[derive(Clone, Debug, PartialEq, Eq)]
pub struct Interrupt {
    /// Which of the peripheral's interrupt sources this is.
    pub signal: String,
    /// The name of the interrupt, as the core knows it.
    pub interrupt: String,
}

/// The view of an [`Interrupt`].
pub struct InterruptView {
    pub signal: Seq<char>,
    pub interrupt: Seq<char>,
}

impl View for Interrupt {
    type V = InterruptView;

    open spec fn view(&self) -> InterruptView {
        InterruptView { signal: self.signal@, interrupt: self.interrupt@ }
    }
}

/// An interrupt line of a core: its name and its number.
#[derive(Clone, Debug, PartialEq, Eq)]
pub struct InterruptDescriptor {
    pub name: String,
    pub number: u32,
}

/// The view of an [`InterruptDescriptor`].
pub struct InterruptDescriptorView {
    pub name: Seq<char>,
    pub number: u32,
}

impl View for InterruptDescriptor {
    type V = InterruptDescriptorView;

    open spec fn view(&self) -> InterruptDescriptorView {
        InterruptDescriptorView { name: self.name@, number: self.number }
    }
}

/// A peripheral of a core, with the records attached to it so far.
#[derive(Clone, Debug, PartialEq, Eq)]
pub struct Peripheral {
    /// The name of the peripheral; records are attached by matching it.
    pub name: String,
    /// The DMA requests of the peripheral.
    pub dma_channels: Vec<DmaChannel>,
    /// The interrupts of the peripheral; absent until the first is attached.
    pub interrupts: Option<Vec<Interrupt>>,
}

/// The view of a [`Peripheral`].
pub struct PeripheralView {
    pub name: Seq<char>,
    pub dma_channels: Seq<DmaChannelView>,
    pub interrupts: Option<Seq<InterruptView>>,
}

impl View for Peripheral {
    type V = PeripheralView;

    open spec fn view(&self) -> PeripheralView {
        PeripheralView {
            name: self.name@,
            dma_channels: self.dma_channels@.map_values(|c: DmaChannel| c@),
            interrupts: match self.interrupts {
                Some(list) => Some(list@.map_values(|i: Interrupt| i@)),
                None => None,
            },
        }
    }
}

/// A core of a chip.
#[derive(Clone, Debug, PartialEq, Eq)]
pub struct Core {
    /// The peripherals that the core reaches.
    pub peripherals: Vec<Peripheral>,
    /// The interrupt lines of the core.
    pub interrupts: Vec<InterruptDescriptor>,
    /// Present while the DMA requests of the core are still to be loaded.
    pub include_dmamux: Option<String>,
}

/// The view of a [`Core`].
pub struct CoreView {
    pub peripherals: Seq<PeripheralView>,
    pub interrupts: Seq<InterruptDescriptorView>,
    pub include_dmamux: Option<Seq<char>>,
}

impl View for Core {
    type V = CoreView;

    open spec fn view(&self) -> CoreView {
        CoreView {
            peripherals: self.peripherals@.map_values(|p: Peripheral| p@),
            interrupts: self.interrupts@.map_values(|i: InterruptDescriptor| i@),
            include_dmamux: match self.include_dmamux {
                Some(path) => Some(path@),
                None => None,
            },
        }
    }
}

/// A chip: its name, which tells its family, and its cores.
#[derive(Clone, Debug, PartialEq, Eq)]
pub struct Chip {
    pub name: String,
    pub cores: Vec<Core>,
}

/// The view of a [`Chip`].
pub struct ChipView {
    pub name: Seq<char>,
    pub cores: Seq<CoreView>,
}

impl View for Chip {
    type V = ChipView;

    open spec fn view(&self) -> ChipView {
        ChipView { name: self.name@, cores: self.cores@.map_values(|c: Core| c@) }
    }
}

} // verus!
