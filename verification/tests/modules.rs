use mixlab::protocol::{GateState, LineType};
use mixlab::trigger::Trigger;
use mixlab::webaudio_device::WebAudioDevice;

#[test]
fn trigger_has_one_mono_output() {
    let (trigger, ()) = Trigger::create(GateState::Closed);
    assert!(trigger.inputs().is_empty());
    assert_eq!(trigger.outputs().len(), 1);
    assert_eq!(trigger.outputs()[0].line_type, LineType::Mono);
    assert!(trigger.outputs()[0].label.is_none());
    assert_eq!(trigger.params(), GateState::Closed);
}

#[test]
fn trigger_follows_gate() {
    let (mut trigger, ()) = Trigger::create(GateState::Open);
    let mut out0 = [0.5f32; 4];
    let mut out1 = [7.0f32; 2];
    {
        let mut outputs: [&mut [f32]; 2] = [&mut out0, &mut out1];
        assert_eq!(trigger.run_tick(0, &[], &mut outputs, 1.0, 0.0), None);
    }
    assert_eq!(out0, [1.0; 4]);
    assert_eq!(out1, [7.0; 2]);
    assert_eq!(trigger.update(GateState::Closed), None);
    assert_eq!(trigger.params(), GateState::Closed);
    {
        let mut outputs: [&mut [f32]; 1] = [&mut out0];
        trigger.run_tick(1, &[], &mut outputs, 1.0, 0.0);
    }
    assert_eq!(out0, [0.0; 4]);
}

#[test]
fn device_has_stereo_terminals() {
    let (device, ()) = WebAudioDevice::create(());
    assert_eq!(device.inputs().len(), 1);
    assert_eq!(device.outputs().len(), 1);
    assert_eq!(device.inputs()[0].line_type, LineType::Stereo);
    assert_eq!(device.outputs()[0].line_type, LineType::Stereo);
    assert!(device.outputs()[0].label.is_none());
    assert_eq!(device.params(), ());
}

#[test]
fn device_passes_input_through() {
    let (mut device, ()) = WebAudioDevice::create(());
    assert_eq!(device.update(()), None);
    let input = [0.1f32, 0.2, 0.3, 0.4];
    let silence = [0.0f32; 4];
    let mut out = [9.0f32; 4];
    {
        let inputs: [Option<&[f32]>; 1] = [Some(&input)];
        let mut outputs: [&mut [f32]; 1] = [&mut out];
        assert_eq!(device.run_tick(0, &inputs, &mut outputs, &silence), None);
    }
    assert_eq!(out, input);
    {
        let inputs: [Option<&[f32]>; 1] = [None];
        let mut outputs: [&mut [f32]; 1] = [&mut out];
        device.run_tick(1, &inputs, &mut outputs, &silence);
    }
    assert_eq!(out, silence);
}

#[test]
fn trigger_params_follow_last_update() {
    let (mut trigger, ()) = Trigger::create(GateState::Open);
    let mut out = [0.0f32; 2];
    for gate in [GateState::Closed, GateState::Open, GateState::Closed] {
        trigger.update(gate);
        let mut outputs: [&mut [f32]; 1] = [&mut out];
        trigger.run_tick(0, &[], &mut outputs, 1.0, 0.0);
    }
    assert_eq!(trigger.params(), GateState::Closed);
    assert_eq!(out, [0.0; 2]);
}

#[test]
fn device_debug_text() {
    let (device, ()) = WebAudioDevice::create(());
    assert_eq!(device.debug_text(), "WebAudioDevice { params: (), .. }");
}
