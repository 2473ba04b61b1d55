
pub mod call;
pub mod codec;
pub mod error;
pub mod laws;
pub mod rpc;
pub mod store;
pub mod value;
pub mod varint;

pub use call::{
    RPCExecutionBody, RPCResponseBody, RPCV0ExecuteBody, RPCV0ResponseBody, RPCV1ExecuteBody,
    RPCV1ResponseBody,
};
pub use error::DecodeError;
pub use rpc::{Parameter, RPCDefinitionData, RpcResult};
pub use store::{EntryData, EntryStore, StoreError};
pub use value::{EntryType, EntryValue};

