//! The device that the model runs on.
use candle_core::{Device, Error};
use vstd::prelude::*;

verus! {

/// Which device is asked for.
#[derive(Clone, Copy, Debug, PartialEq, Eq, Structural)]
pub enum DeviceArg {
    /// A graphics card if there is one.
    Auto,
    /// A graphics card.
    Cuda,
    /// The processor.
    Cpu,
}

/// Whether a device is the processor, as `Device::is_cpu` tells.
pub uninterp spec fn is_processor(device: Device) -> bool;

/// The number of the graphics card that a device is, as `Device::location` tells.
pub uninterp spec fn card_number(device: Device) -> Option<usize>;

/// `Device::Cpu`: the processor, which is no graphics card.
#[verifier::external_body]
fn processor() -> (device: Device)
    ensures
        is_processor(device),
        card_number(device) is None,
{
    Device::Cpu
}

/// The errors that asking for the graphics card with this number may give.
pub uninterp spec fn card_errors(ordinal: usize) -> Set<Error>;

/// `Device::new_cuda`: the graphics card with this number. Whether there is one depends on the
/// machine.
#[verifier::external_body]
fn graphics_card(ordinal: usize) -> (r: Result<Device, Error>)
    ensures
        match r {
            Ok(device) => !is_processor(device) && card_number(device) == Some(ordinal),
            Err(err) => card_errors(ordinal).contains(err),
        },
{
    Device::new_cuda(ordinal)
}

/// Why there is no device.
pub enum DeviceError {
    /// Candle could not get a graphics card.
    Cuda(Error),
}

impl DeviceError {
    /// What was being done.
    pub fn message(&self) -> (text: String)
        ensures
            text@ == "initialize CUDA device 0"@,
    {
        "initialize CUDA device 0".to_owned()
    }
}

/// A device, and why it is not the one that was tried first.
pub struct Selected {
    pub device: Device,
    pub fallback: Option<Error>,
}

/// The device that comes of what is asked for and of the attempt to get a graphics card. The
/// attempt counts only where a graphics card is asked for or would be taken.
pub fn settle_device(arg: DeviceArg, card: Result<Device, Error>) -> (r: Result<
    Selected,
    DeviceError,
>)
    ensures
        match arg {
            DeviceArg::Cpu => {
                &&& r matches Ok(selected)
                &&& is_processor(selected.device)
                &&& selected.fallback is None
            },
            DeviceArg::Cuda => match card {
                Ok(device) => r == Ok::<Selected, DeviceError>(
                    Selected { device, fallback: None },
                ),
                Err(err) => r == Err::<Selected, DeviceError>(DeviceError::Cuda(err)),
            },
            DeviceArg::Auto => match card {
                Ok(device) => r == Ok::<Selected, DeviceError>(
                    Selected { device, fallback: None },
                ),
                Err(err) => {
                    &&& r matches Ok(selected)
                    &&& is_processor(selected.device)
                    &&& selected.fallback == Some(err)
                },
            },
        },
{
    match arg {
        DeviceArg::Cpu => Ok(Selected { device: processor(), fallback: None }),
        DeviceArg::Cuda => match card {
            Ok(device) => Ok(Selected { device, fallback: None }),
            Err(err) => Err(DeviceError::Cuda(err)),
        },
        DeviceArg::Auto => match card {
            Ok(device) => Ok(Selected { device, fallback: None }),
            Err(err) => Ok(Selected { device: processor(), fallback: Some(err) }),
        },
    }
}

/// The device that is asked for: the processor, or the first graphics card. Asking for the
/// processor does not touch the graphics card, and asking for a graphics card if there is one
/// never fails. Where no graphics card comes back, it was the first one that was refused.
pub fn select_device(arg: DeviceArg) -> (r: Result<Selected, DeviceError>)
    ensures
        arg == DeviceArg::Cpu ==> r is Ok && is_processor(r->Ok_0.device) && r->Ok_0.fallback
            is None,
        arg == DeviceArg::Cuda ==> match r {
            Ok(selected) => {
                &&& card_number(selected.device) == Some(0usize)
                &&& !is_processor(selected.device)
                &&& selected.fallback is None
            },
            Err(DeviceError::Cuda(err)) => card_errors(0).contains(err),
        },
        arg == DeviceArg::Auto ==> r is Ok && match r->Ok_0.fallback {
            None => {
                &&& card_number(r->Ok_0.device) == Some(0usize)
                &&& !is_processor(r->Ok_0.device)
            },
            Some(err) => is_processor(r->Ok_0.device) && card_errors(0).contains(err),
        },
{
    match arg {
        DeviceArg::Cpu => Ok(Selected { device: processor(), fallback: None }),
        _ => settle_device(arg, graphics_card(0)),
    }
}

} // verus!
