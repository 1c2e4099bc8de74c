//! Navigation from a "home" point to a current point, both in integer degrees times 1e7 (the domain that the GPS
//! reader emits).
//!
//! The difference of two coordinates is taken in integers: differencing absolute coordinates in single precision
//! would destroy exactly the digits that matter at short range. Only the small delta goes through floating point,
//! outside this crate; what comes back is folded into whole meters and a compass bearing here.

use vstd::prelude::*;

use crate::gps::GpsFix;

verus! {

/// Distance (meters) below which the bearing is meaningless: within a few meters of home, GPS noise swings it
/// through all 360 degrees, so callers should render "AT HOME" rather than a spinning needle.
pub const AT_HOME_M: u32 = 5;

/// A geographic coordinate: degrees times 1e7, +North / +East.
#[derive(Copy, Clone, Debug, PartialEq, Eq, Structural)]
pub struct CoordE7 {
    pub lat_e7: i32,
    pub lon_e7: i32,
}

impl Default for CoordE7 {
    fn default() -> (coord: Self)
        ensures
            coord == (CoordE7 { lat_e7: 0, lon_e7: 0 }),
    {
        CoordE7 { lat_e7: 0, lon_e7: 0 }
    }
}

/// Navigation from a home point to a current point: whole-meter distance and a compass bearing in `0..=359` degrees
/// (0 = due North, 90 = East).
#[derive(Copy, Clone, Debug, PartialEq, Eq, Structural)]
pub struct Nav {
    pub distance_m: u32,
    pub bearing_deg: u16,
}

impl Default for Nav {
    fn default() -> (nav: Self)
        ensures
            nav == (Nav { distance_m: 0, bearing_deg: 0 }),
    {
        Nav { distance_m: 0, bearing_deg: 0 }
    }
}

/// How far `current` lies north and east of `home`, in degrees times 1e7. Exact for every pair, an antimeridian pair
/// or a garbage point included.
pub fn delta_e7(home: CoordE7, current: CoordE7) -> (delta: (i64, i64))
    ensures
        delta.0 == current.lat_e7 - home.lat_e7,
        delta.1 == current.lon_e7 - home.lon_e7,
{
    (current.lat_e7 as i64 - home.lat_e7 as i64, current.lon_e7 as i64 - home.lon_e7 as i64)
}

/// Navigation from a distance in whole meters and a bearing in whole degrees that may lie up to one turn outside the
/// compass: the distance saturates, the bearing is folded into `0..=359`.
pub fn nav_from_rounded(distance_m: u64, bearing_deg: i32) -> (nav: Nav)
    requires
        -360 <= bearing_deg < 720,
    ensures
        nav.distance_m == (if distance_m <= u32::MAX {
            distance_m as int
        } else {
            u32::MAX as int
        }),
        nav.bearing_deg == bearing_deg as int % 360,
        nav.bearing_deg < 360,
{
    let distance: u32 = if distance_m <= 0xffff_ffff {
        distance_m as u32
    } else {
        0xffff_ffff
    };
    let mut b: i32 = bearing_deg;
    if b >= 360 {
        b -= 360;
    }
    if b < 0 {
        b += 360;
    }
    Nav { distance_m: distance, bearing_deg: b as u16 }
}

/// Whether a fix carries a position that can be trusted: a usable fix and both coordinates.
pub open spec fn trusted_position(fix: GpsFix) -> Option<CoordE7> {
    match (fix.fix, fix.lat_e7, fix.lon_e7) {
        (Some(quality), Some(lat_e7), Some(lon_e7)) => if quality.raw != 0 {
            Some(CoordE7 { lat_e7, lon_e7 })
        } else {
            None
        },
        _ => None,
    }
}

/// The position of a fix, where it can be trusted.
pub fn position(fix: &GpsFix) -> (coord: Option<CoordE7>)
    ensures
        coord == trusted_position(*fix),
{
    match (fix.fix, fix.lat_e7, fix.lon_e7) {
        (Some(quality), Some(lat_e7), Some(lon_e7)) => if quality.has_fix() {
            Some(CoordE7 { lat_e7, lon_e7 })
        } else {
            None
        },
        _ => None,
    }
}

/// The launch point: the first trusted position.
pub struct LaunchPoint {
    home: Option<CoordE7>,
}

impl LaunchPoint {
    /// Where the launch point is, once known.
    pub closed spec fn spec_home(&self) -> Option<CoordE7> {
        self.home
    }

    /// No position seen yet.
    pub fn new() -> (launch: Self)
        ensures
            launch.spec_home() is None,
    {
        LaunchPoint { home: None }
    }

    /// Takes in a fix. The first trusted position becomes the launch point and stays it. Returns the launch point and
    /// the current point wherever the fix can be trusted, to navigate between.
    pub fn observe(&mut self, fix: &GpsFix) -> (leg: Option<(CoordE7, CoordE7)>)
        ensures
            final(self).spec_home() == (if old(self).spec_home() is Some {
                old(self).spec_home()
            } else {
                trusted_position(*fix)
            }),
            leg is Some <==> trusted_position(*fix) is Some,
            leg matches Some((home, current)) ==> final(self).spec_home() == Some(home) && trusted_position(*fix)
                == Some(current),
    {
        match position(fix) {
            Some(current) => match self.home {
                Some(home) => Some((home, current)),
                None => {
                    self.home = Some(current);
                    Some((current, current))
                },
            },
            None => None,
        }
    }
}

// ---------------------------------------------------------------------------------------------------------------
// Laws
// ---------------------------------------------------------------------------------------------------------------

/// A position is trusted exactly where the fix is usable and both coordinates are there, and is then those coordinates.
pub proof fn law_positions_need_a_usable_fix(fix: GpsFix)
    ensures
        trusted_position(fix) is Some <==> fix.fix is Some && (fix.fix->0).raw != 0 && fix.lat_e7 is Some && fix.lon_e7 is Some,
        trusted_position(fix) matches Some(coord) ==> fix.lat_e7 == Some(coord.lat_e7) && fix.lon_e7 == Some(coord.lon_e7),
{
}

} // verus!
