use vstd::prelude::*;

use crate::schema::Ground;

verus! {

/// One instruction of a schema transformer. Locations are implicit: each
/// instruction acts on the location that the enclosing frames address.
#[derive(Debug, PartialEq, Eq)]
pub enum IR {
    G2G(Ground, Ground),
    PushArr,
    PopArr,
    PushObj,
    PopObj,
    PushKey(String),
    PopKey,
    Copy,
    Abs(String),
    Extr(String),
    Inv,
}

/// The mathematical value of an [`IR`] instruction: property names as
/// character sequences.
pub enum IrModel {
    G2G(Ground, Ground),
    PushArr,
    PopArr,
    PushObj,
    PopObj,
    PushKey(Seq<char>),
    PopKey,
    Copy,
    Abs(Seq<char>),
    Extr(Seq<char>),
    Inv,
}

impl View for IR {
    type V = IrModel;

    open spec fn view(&self) -> IrModel {
        match self {
            IR::G2G(a, b) => IrModel::G2G(*a, *b),
            IR::PushArr => IrModel::PushArr,
            IR::PopArr => IrModel::PopArr,
            IR::PushObj => IrModel::PushObj,
            IR::PopObj => IrModel::PopObj,
            IR::PushKey(k) => IrModel::PushKey(k@),
            IR::PopKey => IrModel::PopKey,
            IR::Copy => IrModel::Copy,
            IR::Abs(k) => IrModel::Abs(k@),
            IR::Extr(k) => IrModel::Extr(k@),
            IR::Inv => IrModel::Inv,
        }
    }
}

/// The model of a program: the model of each of its instructions.
pub open spec fn program(p: Seq<IR>) -> Seq<IrModel> {
    p.map_values(|i: IR| i@)
}

impl Clone for IR {
    fn clone(&self) -> (r: IR)
        ensures
            r == *self,
    {
        match self {
            IR::G2G(a, b) => IR::G2G(*a, *b),
            IR::PushArr => IR::PushArr,
            IR::PopArr => IR::PopArr,
            IR::PushObj => IR::PushObj,
            IR::PopObj => IR::PopObj,
            IR::PushKey(k) => IR::PushKey(k.clone()),
            IR::PopKey => IR::PopKey,
            IR::Copy => IR::Copy,
            IR::Abs(k) => IR::Abs(k.clone()),
            IR::Extr(k) => IR::Extr(k.clone()),
            IR::Inv => IR::Inv,
        }
    }
}

} // verus!
