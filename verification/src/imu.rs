//! Boot-time home detection: how the resting orientation of the MPU-6050 is sampled and what its trim may be.
//!
//! On the truck the gimbal "home" is the orientation that the IMU sees at power-on: wake the device, let it settle,
//! average a number of accelerometer samples. The angles themselves are floating point and are computed outside this
//! crate.

use vstd::prelude::*;

verus! {

/// I2C address with AD0 low (the common default for the bare MPU-6050 breakout).
pub const ADDR_AD0_LOW: u8 = 0x68;

/// I2C address with AD0 high.
pub const ADDR_AD0_HIGH: u8 = 0x69;

/// Settle time before sampling, in milliseconds.
pub const DEFAULT_SETTLE_MS: u32 = 1_500;

/// Default number of samples averaged into the home reference.
pub const DEFAULT_SAMPLES: u16 = 100;

/// Spacing between samples, in milliseconds.
pub const SAMPLE_INTERVAL_MS: u32 = 5;

/// Errors from home detection.
#[derive(Copy, Clone, Debug, PartialEq, Eq, Structural)]
pub enum HomeError {
    /// The device could not be brought out of sleep (bad wiring or wrong address).
    Init,
    /// An accelerometer read failed mid-calibration.
    Read,
}

/// What the sampler wants done next.
#[derive(Copy, Clone, Debug, PartialEq, Eq, Structural)]
pub enum Sampling {
    /// Wake the device.
    Wake,
    /// Wait this long, then read a sample.
    WaitThenRead(u32),
    /// Wait this long, then average the samples read.
    WaitThenAverage(u32),
    /// Give up.
    Failed(HomeError),
}

/// The sampling routine: wake, settle, then read sample after sample a fixed interval apart. A request for no samples
/// reads one.
pub struct HomeSampler {
    wanted: u16,
    read: u16,
    state: Sampling,
}

/// How many samples are read for a request of `samples`.
pub open spec fn sample_count(samples: u16) -> u16 {
    if samples == 0 {
        1
    } else {
        samples
    }
}

impl HomeSampler {
    /// Never more samples than wanted.
    pub closed spec fn wf(&self) -> bool {
        &&& 0 < self.wanted
        &&& self.read <= self.wanted
        &&& self.state is WaitThenRead ==> self.read < self.wanted
        &&& self.state is WaitThenAverage ==> self.read == self.wanted
        &&& self.state is Wake ==> self.read == 0
    }

    /// How many samples are wanted.
    pub closed spec fn spec_wanted(&self) -> u16 {
        self.wanted
    }

    /// How many samples have been read.
    pub closed spec fn spec_read(&self) -> u16 {
        self.read
    }

    /// What is to be done next.
    pub closed spec fn spec_state(&self) -> Sampling {
        self.state
    }

    /// A routine that averages `samples` readings.
    pub fn new(samples: u16) -> (sampler: Self)
        ensures
            sampler.wf(),
            sampler.spec_wanted() == sample_count(samples),
            sampler.spec_read() == 0,
            sampler.spec_state() == Sampling::Wake,
    {
        let wanted: u16 = if samples == 0 {
            1
        } else {
            samples
        };
        HomeSampler { wanted, read: 0, state: Sampling::Wake }
    }

    /// What is to be done next.
    pub fn state(&self) -> (state: Sampling)
        ensures
            state == self.spec_state(),
    {
        self.state
    }

    /// How many samples the average is over.
    pub fn count(&self) -> (count: u16)
        requires
            self.wf(),
        ensures
            count == self.spec_wanted(),
            count > 0,
    {
        self.wanted
    }

    /// The device woke up, or did not.
    pub fn woken(&mut self, ok: bool)
        requires
            old(self).wf(),
            old(self).spec_state() == Sampling::Wake,
        ensures
            final(self).wf(),
            final(self).spec_wanted() == old(self).spec_wanted(),
            final(self).spec_read() == 0,
            final(self).spec_state() == (if ok {
                Sampling::WaitThenRead(DEFAULT_SETTLE_MS)
            } else {
                Sampling::Failed(HomeError::Init)
            }),
            ok ==> final(self).spec_state() == Sampling::WaitThenRead(1_500),
    {
        self.state = if ok {
            Sampling::WaitThenRead(DEFAULT_SETTLE_MS)
        } else {
            Sampling::Failed(HomeError::Init)
        };
    }

    /// A sample was read, or was not.
    pub fn sampled(&mut self, ok: bool)
        requires
            old(self).wf(),
            old(self).spec_state() is WaitThenRead,
        ensures
            final(self).wf(),
            final(self).spec_wanted() == old(self).spec_wanted(),
            final(self).spec_read() == old(self).spec_read() + (if ok {
                1int
            } else {
                0
            }),
            final(self).spec_state() == (if !ok {
                Sampling::Failed(HomeError::Read)
            } else if final(self).spec_read() == final(self).spec_wanted() {
                Sampling::WaitThenAverage(SAMPLE_INTERVAL_MS)
            } else {
                Sampling::WaitThenRead(SAMPLE_INTERVAL_MS)
            }),
            ok ==> final(self).spec_state() == Sampling::WaitThenRead(5) || final(self).spec_state()
                == Sampling::WaitThenAverage(5),
    {
        if !ok {
            self.state = Sampling::Failed(HomeError::Read);
            return;
        }
        self.read += 1;
        self.state = if self.read == self.wanted {
            Sampling::WaitThenAverage(SAMPLE_INTERVAL_MS)
        } else {
            Sampling::WaitThenRead(SAMPLE_INTERVAL_MS)
        };
    }
}

// ---------------------------------------------------------------------------------------------------------------
// Laws
// ---------------------------------------------------------------------------------------------------------------

/// As many samples are read as were asked for, and at least one.
pub proof fn law_at_least_one_sample(samples: u16)
    ensures
        samples >= 1 ==> sample_count(samples) == samples,
        sample_count(samples) >= 1,
        samples == 0 ==> sample_count(samples) == 1,
{
}

} // verus!
