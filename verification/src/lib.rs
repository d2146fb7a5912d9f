//! A LocalSend client's logic: the protocol's messages, discovery of
//! devices, the receiving and the sending side of a transfer, the HTTP
//! responses it reads, and the sizes it shows.
pub mod convert_unit;
pub mod device;
pub mod http;
pub mod message;
pub mod protocol;
pub mod receive;
pub mod send;
pub mod string_map;
pub mod text;

pub use convert_unit::convert_storage_unit;
pub use device::{Device, DeviceTable, DiscoverError, IpAddress};
pub use http::{request_head, RequestError, ResponseReader};
pub use protocol::{
    build_upload_path, AcceptUpload, Announce, FileInfo, PrepareUpload, PREPARE_UPLOAD_URI,
    UPLOAD_PREFFIX,
};
pub use receive::ReceiveSession;
pub use send::{select_device, UploadOffer};
pub use string_map::StringMap;
