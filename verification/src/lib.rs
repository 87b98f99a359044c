//! Load testing support: the url file language of Siege, the pacing of calls
//! across cooperating instances, the bookkeeping of call results and the
//! reporting arithmetic, each stated and proved over a mathematical model.

pub mod duration;
pub mod text;
pub mod siegeurls;
pub mod cputime;
pub mod har;
pub mod configuration;
pub mod classicy;
pub mod totals;
