pub mod machine;
pub mod model;

pub use self::machine::{
    StateMachine, StateMachineDescription, StateMachineDeserError, Transition,
};
pub use self::model::{DescriptionModel, DeserErrorModel, MachineModel, TransitionModel};
