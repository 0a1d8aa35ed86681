pub mod article;
pub mod codec;
pub mod document;
pub mod error;
pub mod repository;

pub use article::{Article, ArticleId, Timestamp};
pub use document::FileScheme;
pub use error::{DecodeStage, RepoError};
pub use repository::ArticleRepository;
