//! Startup calibration accumulator.
//!
//! While the vehicle sits still, the boot sequence reads raw IMU samples
//! and accumulates them here; a failed bus read is simply skipped and
//! does not abort calibration.  The means over the successfully read
//! samples become the gyro and accelerometer bias estimates (with the
//! accelerometer Z mean shifted by one gravity unit before use, so that
//! subtracting the bias yields zero net acceleration at rest).

use vstd::prelude::*;

verus! {

/// How many sample reads the boot sequence attempts.
pub const CALIB_SAMPLES: u32 = 100;

/// Accelerometer LSB per g at the ±16 g range.
pub const ACCEL_LSB_PER_G: i64 = 2048;

/// Sums of raw IMU samples and the count of samples taken.
#[derive(Debug, Clone, Copy)]
pub struct ImuCalibration {
    pub accel_sum: [i64; 3],
    pub gyro_sum: [i64; 3],
    pub samples: u32,
}

impl ImuCalibration {
    /// Every sum is bounded by the number of samples that produced it.
    pub open spec fn wf(&self) -> bool {
        forall|k: int|
            0 <= k < 3 ==> {
                &&& -32768 * self.samples <= #[trigger] self.accel_sum@[k] <= 32767 * self.samples
                &&& -32768 * self.samples <= self.gyro_sum@[k] <= 32767 * self.samples
            }
    }

    pub fn new() -> (r: Self)
        ensures
            r.wf(),
            r.samples == 0,
            forall|k: int| 0 <= k < 3 ==> r.accel_sum@[k] == 0 && r.gyro_sum@[k] == 0,
    {
        ImuCalibration { accel_sum: [0i64; 3], gyro_sum: [0i64; 3], samples: 0 }
    }

    /// Fold one successfully read raw sample into the sums.
    pub fn add_sample(&mut self, accel: [i16; 3], gyro: [i16; 3])
        requires
            old(self).wf(),
            old(self).samples < 0xFFFF_FFFF,
        ensures
            final(self).wf(),
            final(self).samples == old(self).samples + 1,
            forall|k: int|
                0 <= k < 3 ==> #[trigger] final(self).accel_sum@[k] == old(self).accel_sum@[k]
                    + accel@[k],
            forall|k: int|
                0 <= k < 3 ==> #[trigger] final(self).gyro_sum@[k] == old(self).gyro_sum@[k]
                    + gyro@[k],
    {
        let mut k: usize = 0;
        while k < 3
            invariant
                k <= 3,
                old(self).wf(),
                old(self).samples < 0xFFFF_FFFF,
                self.samples == old(self).samples,
                forall|j: int|
                    0 <= j < k ==> #[trigger] self.accel_sum@[j] == old(self).accel_sum@[j]
                        + accel@[j],
                forall|j: int|
                    0 <= j < k ==> #[trigger] self.gyro_sum@[j] == old(self).gyro_sum@[j]
                        + gyro@[j],
                forall|j: int|
                    k <= j < 3 ==> self.accel_sum@[j] == old(self).accel_sum@[j]
                        && self.gyro_sum@[j] == old(self).gyro_sum@[j],
            decreases 3 - k,
        {
            self.accel_sum[k] = self.accel_sum[k] + accel[k] as i64;
            self.gyro_sum[k] = self.gyro_sum[k] + gyro[k] as i64;
            k = k + 1;
        }
        self.samples = self.samples + 1;
    }

    /// Whether the boot sequence has taken the full set of samples.
    pub fn is_complete(&self) -> (b: bool)
        ensures
            b == (self.samples >= CALIB_SAMPLES),
    {
        self.samples >= CALIB_SAMPLES
    }
}

} // verus!
