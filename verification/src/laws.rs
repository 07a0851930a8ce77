//! What holds of the library as a whole: what every decision keeps, what each
//! answers and writes, and how decisions stand to one another.

pub mod decision;
pub mod frames;
pub mod history;
pub mod records;
pub mod tree;
pub mod chart;
pub mod chart_kept;
pub mod places;
pub mod preorder;
pub mod strays;
pub mod ledger;
pub mod ledger_kept;
pub mod running;
pub mod coming_and_going;
pub mod seats;
pub mod authority;
pub mod answers;
pub mod asking;
pub mod outcomes;
pub mod moves;
pub mod removal;
pub mod settling;
pub mod founding;
pub mod naming;
pub mod projection;
pub mod telling;
pub mod feed;
pub mod undoing;
pub mod words;
pub mod forms;
pub mod standing;
