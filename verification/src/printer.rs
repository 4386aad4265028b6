//! The plain window that hands the typed link and directory to a sink.

use vstd::prelude::*;
use crate::state::TextInputState;

verus! {

/// Receives the link and directory that the user submits.
///
/// A sink may say, through `received`, what taking a submission makes of it; a
/// verified sink must then prove that `handle_submission` does that. A sink that
/// says nothing promises nothing.
pub trait Output {
    /// `after` is the sink `before` once it has taken the submission of `pin_url` and
    /// `directory_path`.
    open spec fn received(before: &Self, after: &Self, pin_url: Seq<char>, directory_path: Seq<char>) -> bool {
        true
    }

    /// Takes a submitted pin link and destination directory.
    fn handle_submission(&mut self, pin_url: &str, directory_path: &str)
        ensures
            Self::received(old(self), final(self), pin_url@, directory_path@),
    ;
}

/// A window with one form whose submissions go to `O`.
#[derive(Debug)]
pub struct TextPrinterApp<O> {
    state: TextInputState,
    output: O,
}

impl<O> TextPrinterApp<O> {
    /// The form.
    pub closed spec fn form(&self) -> TextInputState {
        self.state
    }

    /// The sink that receives the submissions.
    pub closed spec fn sink(&self) -> O {
        self.output
    }
}

impl<O: Output> TextPrinterApp<O> {
    /// An empty form whose submissions go to `output`.
    pub fn with_output(output: O) -> (app: Self)
        ensures
            app.form().spec_url() == Seq::<char>::empty(),
            app.form().spec_directory_path() == Seq::<char>::empty(),
            app.sink() == output,
    {
        TextPrinterApp { state: TextInputState::new(), output }
    }

    /// The form.
    pub fn state(&self) -> (state: &TextInputState)
        ensures
            *state == self.form(),
    {
        &self.state
    }

    /// The form, for editing.
    pub fn state_mut(&mut self) -> (state: &mut TextInputState)
        ensures
            *state == old(self).form(),
            final(self).form() == *final(state),
            final(self).sink() == old(self).sink(),
    {
        &mut self.state
    }

    /// Hands the typed link and directory to the sink; the form stays as it is.
    pub fn submit(&mut self)
        ensures
            final(self).form() == old(self).form(),
            O::received(
                &old(self).sink(),
                &final(self).sink(),
                old(self).form().spec_url(),
                old(self).form().spec_directory_path(),
            ),
    {
        self.output.handle_submission(self.state.text(), self.state.directory_path());
    }

    /// Hands back the sink.
    pub fn into_output(self) -> (output: O)
        ensures
            output == self.sink(),
    {
        self.output
    }
}

} // verus!
