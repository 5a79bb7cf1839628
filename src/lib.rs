pub mod encoding;
pub mod hash;
pub mod schnorr;
pub mod transaction;
pub mod block;
pub mod ledger;
pub mod db;
pub mod varint;
pub mod script;
pub mod segwit;
pub mod wallet;
