//! A per-owner profile record: its data model, its byte format with a fixed
//! capacity, the guarded operations that change it, and a keyed store.
//!
//! Every operation is stated as a function on the record as plain data
//! (`model`), carried out on the record in memory (`instructions`) and on its
//! stored bytes (`store`). The byte format is given as mathematics (`format`),
//! written by `codec` and read back by `decode`. What holds of all of this,
//! whatever the record, is proved in `laws`.

pub mod address;
pub mod codec;
pub mod decode;
pub mod format;
pub mod identity;
pub mod instructions;
pub mod laws;
pub mod model;
mod roundtrip;
pub mod state;
pub mod store;

pub use address::{find_portfolio_address, id};
pub use codec::{checked_len, encode, fits};
pub use decode::decode;
pub use format::{CAPACITY, TAG_LEN};
pub use identity::Pubkey;
pub use instructions::{
    approve_vouch, create_portfolio, initialize, is_owner, process, request_vouch, send_message,
    store_image, store_links, tip, ApproveVouch, CreatePortfolio, Initialize, Instruction,
    RequestVouch, SendMessage, StoreImage, StoreLinks, Tip,
};
pub use state::{Attributed, ErrorCode, Message, Portfolio, Vouch, VouchRequest};
pub use store::Store;
