//! A module that hands its stereo input to the browser's audio output and
//! passes it through unchanged.

use vstd::prelude::*;
use crate::protocol::{unlabeled_terminal, LineType, Terminal};

verus! {

#[derive(Debug)]
pub struct WebAudioDevice {
    params: (),
    inputs: Vec<Terminal>,
    outputs: Vec<Terminal>,
}

/// The samples a device passes on: its first input when that is connected,
/// and `silence` otherwise.
pub open spec fn device_source<S>(inputs: Seq<Option<&[S]>>, silence: Seq<S>) -> Seq<S> {
    match inputs[0] {
        Some(input) => input@,
        None => silence,
    }
}

impl WebAudioDevice {
    pub closed spec fn input_terminals(&self) -> Seq<Terminal> {
        self.inputs@
    }

    pub closed spec fn output_terminals(&self) -> Seq<Terminal> {
        self.outputs@
    }

    /// A device with one unlabeled stereo input and one unlabeled stereo output.
    pub fn create(params: ()) -> (r: (WebAudioDevice, ()))
        ensures
            r.0.input_terminals() == seq![unlabeled_terminal(LineType::Stereo)],
            r.0.output_terminals() == seq![unlabeled_terminal(LineType::Stereo)],
    {
        let device = WebAudioDevice {
            params,
            inputs: vec![LineType::Stereo.unlabeled()],
            outputs: vec![LineType::Stereo.unlabeled()],
        };
        assert(device.inputs@ =~= seq![unlabeled_terminal(LineType::Stereo)]);
        assert(device.outputs@ =~= seq![unlabeled_terminal(LineType::Stereo)]);
        (device, ())
    }

    /// The device's debug text; it shows only its parameters.
    pub fn debug_text(&self) -> (r: String)
        ensures
            r@ == "WebAudioDevice { params: (), .. }"@,
    {
        "WebAudioDevice { params: (), .. }".to_owned()
    }

    /// A device has no parameters.
    pub fn params(&self) -> (r: ())
        ensures
            r == (),
    {
        self.params
    }

    /// Parameters never change anything, and there is nothing to indicate.
    pub fn update(&mut self, _new_params: ()) -> (r: Option<()>)
        ensures
            r is None,
            *final(self) == *old(self),
    {
        None
    }

    /// Copies the first input (or `silence` when it is not connected) into
    /// the first output buffer; every other buffer is left as it was, and
    /// nothing is indicated.
    pub fn run_tick<S: Copy>(
        &mut self,
        _t: u64,
        inputs: &[Option<&[S]>],
        outputs: &mut [&mut [S]],
        silence: &[S],
    ) -> (r: Option<()>)
        requires
            inputs@.len() > 0,
            old(outputs)@.len() > 0,
            old(outputs)@[0]@.len() == device_source(inputs@, silence@).len(),
        ensures
            r is None,
            *final(self) == *old(self),
            final(outputs)@.len() == old(outputs)@.len(),
            final(outputs)@[0]@ == device_source(inputs@, silence@),
            forall|k: int| 0 < k < final(outputs)@.len() ==> final(outputs)@[k] == old(outputs)@[k],
    {
        let input: &[S] = match inputs[0] {
            Some(input) => input,
            None => silence,
        };
        let out: &mut [S] = &mut outputs[0];
        let len = out.len();
        let mut i: usize = 0;
        while i < len
            invariant
                len == out@.len(),
                len == input@.len(),
                i <= len,
                forall|j: int| 0 <= j < i ==> out@[j] == input@[j],
            decreases len - i,
        {
            out[i] = input[i];
            i += 1;
        }
        assert(out@ =~= input@);
        None
    }

    /// The input terminals: one unlabeled stereo input.
    pub fn inputs(&self) -> (r: &[Terminal])
        ensures
            r@ == self.input_terminals(),
    {
        self.inputs.as_slice()
    }

    /// The output terminals: one unlabeled stereo output.
    pub fn outputs(&self) -> (r: &[Terminal])
        ensures
            r@ == self.output_terminals(),
    {
        self.outputs.as_slice()
    }
}

} // verus!
