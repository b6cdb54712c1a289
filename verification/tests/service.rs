use candle_core::{Device, Error};
use voice_gender::api::{conclude, healthz, refuse, ApiError, Delivery, Endpoint};
use voice_gender::audio::AudioError;
use voice_gender::device::{select_device, settle_device, DeviceArg, DeviceError, Selected};
use voice_gender::scores::GenderResponse;

fn refused(delivery: Delivery) -> (u16, String) {
    match conclude(delivery) {
        Ok(_) => panic!("answered"),
        Err(err) => (err.status, err.message),
    }
}

fn selected(r: Result<Selected, DeviceError>) -> Selected {
    match r {
        Ok(selected) => selected,
        Err(err) => panic!("{}", err.message()),
    }
}

#[test]
fn endpoints_have_paths() {
    assert_eq!(Endpoint::Health.path(), "/health");
    assert_eq!(Endpoint::Classify.path(), "/v1/gender");
}

#[test]
fn health_check_has_no_content() {
    assert_eq!(healthz(), 204);
}

#[test]
fn errors_have_status_and_text() {
    let err = ApiError::bad_request("no".to_string());
    assert_eq!((err.status, err.message), (400, "no".to_string()));
    let err = ApiError::unavailable("busy".to_string());
    assert_eq!((err.status, err.message), (503, "busy".to_string()));
}

#[test]
fn bodies_are_refused_with_their_reason() {
    let err = refuse(&AudioError::EmptyBody);
    assert_eq!((err.status, err.message), (400, "request body is empty".to_string()));
    let err = refuse(&AudioError::UnsupportedDepth { bits: 64 });
    assert_eq!(err.message, "unsupported integer WAV bit depth: 64");
}

#[test]
fn requests_end_with_an_answer_or_a_reason() {
    assert_eq!(
        refused(Delivery::NotRunning),
        (503, "batch worker is not running".to_string())
    );
    assert_eq!(
        refused(Delivery::Dropped),
        (503, "batch worker dropped the request".to_string())
    );
    assert_eq!(
        refused(Delivery::Told { reply: Err("too short".to_string()) }),
        (503, "too short".to_string())
    );
    let reply = Ok(GenderResponse { label: "female".to_string(), scores: Vec::new() });
    match conclude(Delivery::Told { reply }) {
        Ok(response) => assert_eq!(response.label, "female"),
        Err(err) => panic!("{}", err.message),
    }
}

#[test]
fn processor_is_taken_when_asked_for() {
    let found = selected(select_device(DeviceArg::Cpu));
    assert!(found.device.is_cpu());
    assert!(found.fallback.is_none());
}

#[test]
fn automatic_choice_never_fails() {
    let found = selected(select_device(DeviceArg::Auto));
    assert_eq!(found.device.is_cpu(), found.fallback.is_some());
}

#[test]
fn graphics_card_is_taken_or_missed() {
    match select_device(DeviceArg::Cuda) {
        Ok(found) => assert!(!found.device.is_cpu()),
        Err(err) => assert_eq!(err.message(), "initialize CUDA device 0"),
    }
}

#[test]
fn attempts_settle_the_device() {
    let failed = || Err(Error::Msg("no card".to_string()));
    let found = selected(settle_device(DeviceArg::Auto, failed()));
    assert!(found.device.is_cpu());
    match found.fallback {
        Some(err) => assert!(err.to_string().contains("no card")),
        None => panic!("no reason"),
    }
    assert!(settle_device(DeviceArg::Cuda, failed()).is_err());
    assert!(selected(settle_device(DeviceArg::Cpu, failed())).fallback.is_none());
    let found = selected(settle_device(DeviceArg::Auto, Ok(Device::Cpu)));
    assert!(found.fallback.is_none());
    let found = selected(settle_device(DeviceArg::Cuda, Ok(Device::Cpu)));
    assert!(found.fallback.is_none());
}
