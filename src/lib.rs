pub mod clock;
pub mod replica;
pub mod dot;
pub mod aworset;
pub mod awormap;
pub mod mvreg;
pub mod gcounter;
pub mod state;
pub mod replicator;
pub mod counter;
pub mod lwwreg;
pub mod mvregister;
pub mod orset;
pub mod lseq;
pub mod rga;
pub mod list;
pub mod convergent;
