//! Threading a value and its warnings through every parse step.

use crate::issues::Warning;
use crate::positions::Position;
use crate::positions::Positional;
use vstd::prelude::*;

verus! {

/// The output of an operation along with any [`Warning`]s the operation
/// generated.  Warnings never block producing a value.
#[derive(Debug)]
pub struct Output<T> {
    output: T,
    warnings: Vec<Warning>,
}

impl<T> Output<T> {
    /// The contained output value.
    pub closed spec fn spec_output(&self) -> T {
        self.output
    }

    /// The warnings that ride along with the value.
    pub closed spec fn spec_warnings(&self) -> Seq<Warning> {
        self.warnings@
    }

    /// Creates a new `Output` with the given value and no warnings.
    pub fn new(value: T) -> (r: Output<T>)
        ensures
            r.spec_output() == value,
            r.spec_warnings() == Seq::<Warning>::empty(),
    {
        Output { output: value, warnings: Vec::new() }
    }

    /// Builder method that replaces the warnings of an `Output` and hands
    /// the object back.
    pub fn with_warnings(self, warnings: Vec<Warning>) -> (r: Output<T>)
        ensures
            r.spec_output() == self.spec_output(),
            r.spec_warnings() == warnings@,
    {
        Output { output: self.output, warnings }
    }

    /// Returns a reference to the output value.
    pub fn get_output(&self) -> (r: &T)
        ensures
            r == self.spec_output(),
    {
        &self.output
    }

    /// Returns a mutable reference to the output value.
    pub fn mut_output(&mut self) -> (r: &mut T)
        ensures
            *r == old(self).spec_output(),
            final(self).spec_output() == *final(r),
            final(self).spec_warnings() == old(self).spec_warnings(),
    {
        &mut self.output
    }

    /// Returns `true` if the object has associated warnings.
    pub fn has_warnings(&self) -> (r: bool)
        ensures
            r == (self.spec_warnings().len() != 0),
    {
        !self.warnings.is_empty()
    }

    /// Returns a reference to the associated list of warnings.
    pub fn get_warnings(&self) -> (r: &Vec<Warning>)
        ensures
            r@ == self.spec_warnings(),
    {
        &self.warnings
    }

    /// Consumes the `Output` and returns the value and the warnings as a
    /// tuple.
    pub fn take(self) -> (r: (T, Vec<Warning>))
        ensures
            r.0 == self.spec_output(),
            r.1@ == self.spec_warnings(),
    {
        (self.output, self.warnings)
    }
}

impl<T, E> Output<Result<T, E>> {
    /// Returns `true` if the contained `Result` is `Ok`.
    pub fn is_ok(&self) -> (r: bool)
        ensures
            r == (self.spec_output() is Ok),
    {
        self.output.is_ok()
    }

    /// Returns `true` if the contained `Result` is `Err`.
    pub fn is_err(&self) -> (r: bool)
        ensures
            r == (self.spec_output() is Err),
    {
        self.output.is_err()
    }

    /// Converts this `Output<Result<T, E>>` into an `Output<Result<U, F>>`
    /// by converting the success value, which must be present, and keeping
    /// the warnings.
    pub fn into_ok<U: From<T>, F>(self) -> (r: Output<Result<U, F>>)
        requires
            self.spec_output() is Ok,
        ensures
            r.spec_warnings() == self.spec_warnings(),
            (match r.spec_output() {
                Ok(u) => call_ensures(U::from, (self.spec_output()->Ok_0,), u),
                Err(_) => false,
            }),
    {
        let (res, warnings) = self.take();
        match res {
            Ok(t) => Output::new(Ok(U::from(t))).with_warnings(warnings),
            Err(_) => unreached(),
        }
    }

    /// Converts this `Output<Result<T, E>>` into an `Output<Result<U, F>>`
    /// by converting the error value, which must be present, and keeping
    /// the warnings.
    pub fn into_err<U, F: From<E>>(self) -> (r: Output<Result<U, F>>)
        requires
            self.spec_output() is Err,
        ensures
            r.spec_warnings() == self.spec_warnings(),
            (match r.spec_output() {
                Err(f) => call_ensures(F::from, (self.spec_output()->Err_0,), f),
                Ok(_) => false,
            }),
    {
        let (res, warnings) = self.take();
        match res {
            Err(e) => Output::new(Err(F::from(e))).with_warnings(warnings),
            Ok(_) => unreached(),
        }
    }

    /// Converts this `Output<Result<T, E>>` into an `Output<Result<U, F>>`
    /// by converting whichever side the `Result` holds and keeping the
    /// warnings.
    pub fn into_result<U: From<T>, F: From<E>>(self) -> (r: Output<Result<U, F>>)
        ensures
            r.spec_warnings() == self.spec_warnings(),
            r.spec_output() is Ok <==> self.spec_output() is Ok,
            (match (self.spec_output(), r.spec_output()) {
                (Ok(t), Ok(u)) => call_ensures(U::from, (t,), u),
                (Err(e), Err(f)) => call_ensures(F::from, (e,), f),
                _ => false,
            }),
    {
        if self.is_ok() {
            self.into_ok()
        } else {
            self.into_err()
        }
    }
}

impl<T: Positional> Positional for Output<T> {
    fn get_position(&self) -> &Position {
        self.output.get_position()
    }

    fn set_row(&mut self, row: usize) {
        self.output.set_row(row);
        let mut i: usize = 0;
        while i < self.warnings.len()
            decreases self.warnings@.len() - i,
        {
            vstd::std_specs::vec::vec_index_mut(&mut self.warnings, i).set_row(row);
            i += 1;
        }
    }

    fn set_column(&mut self, col: usize) {
        self.output.set_column(col);
        let mut i: usize = 0;
        while i < self.warnings.len()
            decreases self.warnings@.len() - i,
        {
            vstd::std_specs::vec::vec_index_mut(&mut self.warnings, i).set_column(col);
            i += 1;
        }
    }

    fn offset_row(&mut self, offset: usize) {
        self.output.offset_row(offset);
        let mut i: usize = 0;
        while i < self.warnings.len()
            decreases self.warnings@.len() - i,
        {
            vstd::std_specs::vec::vec_index_mut(&mut self.warnings, i).offset_row(offset);
            i += 1;
        }
    }

    fn offset_column(&mut self, offset: usize) {
        self.output.offset_column(offset);
        let mut i: usize = 0;
        while i < self.warnings.len()
            decreases self.warnings@.len() - i,
        {
            vstd::std_specs::vec::vec_index_mut(&mut self.warnings, i).offset_column(offset);
            i += 1;
        }
    }

    fn set_file(&mut self, file: String) {
        let mut i: usize = 0;
        while i < self.warnings.len()
            decreases self.warnings@.len() - i,
        {
            vstd::std_specs::vec::vec_index_mut(&mut self.warnings, i).set_file(file.clone());
            i += 1;
        }
        self.output.set_file(file);
    }
}

} // verus!
