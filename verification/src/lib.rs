
pub mod document;
pub mod docx;
pub mod encoding;
pub mod layout;
pub mod output;
pub mod package;
pub mod pagination;
pub mod plan;
pub mod schema;
pub mod sections;
pub mod text;

