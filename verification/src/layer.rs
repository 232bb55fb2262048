//! The layer-shell layers.

use vstd::prelude::*;

verus! {

/// Which layer-shell layer a surface sits on.
#[derive(Debug, Clone, Copy, PartialEq, Eq, Structural)]
pub enum Layer {
    Background,
    Bottom,
    Top,
    Overlay,
}

/// A layer as chosen on the command line.
#[derive(Debug, Clone, Copy, PartialEq, Eq, Structural)]
pub enum LayerArg {
    Background,
    Bottom,
    Top,
    Overlay,
}

/// The layer that was chosen.
pub open spec fn chosen_layer(value: LayerArg) -> Layer {
    match value {
        LayerArg::Background => Layer::Background,
        LayerArg::Bottom => Layer::Bottom,
        LayerArg::Top => Layer::Top,
        LayerArg::Overlay => Layer::Overlay,
    }
}

impl From<LayerArg> for Layer {
    fn from(value: LayerArg) -> (layer: Layer) {
        match value {
            LayerArg::Background => Layer::Background,
            LayerArg::Bottom => Layer::Bottom,
            LayerArg::Top => Layer::Top,
            LayerArg::Overlay => Layer::Overlay,
        }
    }
}

impl vstd::std_specs::convert::FromSpecImpl<LayerArg> for Layer {
    open spec fn obeys_from_spec() -> bool {
        true
    }

    open spec fn from_spec(value: LayerArg) -> Layer {
        chosen_layer(value)
    }
}

} // verus!
