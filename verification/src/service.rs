//! The point-cloud service.

use vstd::prelude::*;

verus! {

/// The point-cloud service: loading PCD files, exporting PTX, statistics,
/// resampling and colour maps. The host serves its remote operations; the
/// decoding and selection they rely on live in `pcd` and `voxel`.
pub struct PointCloudServiceImpl;

} // verus!
