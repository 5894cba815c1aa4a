//! Integer core of a Monte Carlo path tracer: the random integer draw used for
//! axis choice and shuffling, the row bands handed to render workers, the
//! planning of a bounding volume hierarchy over object indices, the decisions
//! of the radiance estimator and of a hierarchy node's ray query, image
//! texture addressing and the Perlin lattice hash.
pub mod bvh;
pub mod perlin;
pub mod render;
pub mod rtweekend;
pub mod texture;
pub mod trace;
