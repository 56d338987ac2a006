//! What an operator's author writes: one callback surface per shape.
//!
//! A callback gets the operator's state and the payload of a message and
//! returns what the operator produces for it. The executor writes that to
//! the operator's output streams. A callback that fails ends its executor.
use crate::stream::WriteStream;
use vstd::prelude::*;

verus! {

/// The failure of an operator's callback.
#[derive(Debug, PartialEq, Eq)]
pub struct CallbackError {
    /// What went wrong, in the operator author's words.
    pub message: String,
}

impl Clone for CallbackError {
    fn clone(&self) -> (copy: Self)
        ensures
            copy == *self,
    {
        CallbackError { message: self.message.clone() }
    }
}

/// An operator without inputs. It is run once and sends on its output
/// stream itself, as often and for as long as it likes.
pub trait Source<S, T> {
    fn run(&mut self, state: &mut S, write_stream: &mut WriteStream<T>) -> Result<
        (),
        CallbackError,
    >;
}

/// An operator with one input and no output.
pub trait Sink<S, T> {
    fn on_data(&mut self, state: &mut S, data: &T) -> Result<(), CallbackError>;
}

/// An operator with one input and no output, whose workers each return a
/// partial result that is merged into the operator's state.
pub trait ParallelSink<T, U> {
    fn on_data(&self, data: &T) -> Result<U, CallbackError>;
}

/// An operator with one input and one output.
pub trait OneInOneOut<S, T, U> {
    fn on_data(&mut self, state: &mut S, data: &T) -> Result<Vec<U>, CallbackError>;
}

/// An operator with one input and one output, whose workers each return
/// what to send and a partial result that is merged into the operator's
/// state.
pub trait ParallelOneInOneOut<T, U, V> {
    fn on_data(&self, data: &T) -> Result<(Vec<U>, V), CallbackError>;
}

/// An operator with two inputs and one output.
pub trait TwoInOneOut<S, T, U, V> {
    fn on_left_data(&mut self, state: &mut S, data: &T) -> Result<Vec<V>, CallbackError>;

    fn on_right_data(&mut self, state: &mut S, data: &U) -> Result<Vec<V>, CallbackError>;
}

/// An operator with one input and two outputs. The callback returns what to
/// send on the left output and what to send on the right one.
pub trait OneInTwoOut<S, T, U, V> {
    fn on_data(&mut self, state: &mut S, data: &T) -> Result<(Vec<U>, Vec<V>), CallbackError>;
}

} // verus!
