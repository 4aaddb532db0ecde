//! Timezone lookup engine: a name index built from two text tables, the
//! request rules of a small datagram protocol, a per-client rate limiter and
//! the schedule of the jobs that keep the data fresh.

pub mod dispatch;
pub mod normalize;
pub mod schedule;
pub mod text;
pub mod timezone;
pub mod timezone_laws;
pub mod tracker;
