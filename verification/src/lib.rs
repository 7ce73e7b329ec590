//! A source-code formatter's layout engine.
//!
//! A front end describes a program as a tree of split groups: text, places
//! where a line may break, nested groups, and the comments and blank lines
//! found between tokens. The engine decides for each group whether it stays on
//! one line or is split over several, and renders the text.

pub mod config;
pub mod text;
pub mod whitespace;
pub mod extract;
pub mod model;
pub mod reflow;
pub mod layout;
pub mod arena;
pub mod builder;
pub mod render;
pub mod driver;
pub mod format;
pub mod laws;
pub mod margin;
pub mod sg_general;
pub mod syntax;
pub mod sg_type;
pub mod sg_statement;
pub mod sg_tokens;

pub use arena::MakeSegsState;
pub use arena::Segment;
pub use arena::SplitGroup;
pub use arena::SplitGroupBuilder;
pub use arena::SplitGroupIdx;
pub use builder::append_whitespace;
pub use builder::check_split_brace_threshold;
pub use builder::new_sg;
pub use builder::new_sg_lit;
pub use config::FormatConfig;
pub use driver::check_rendered;
pub use driver::default_dirs;
pub use driver::product_paths;
pub use driver::Targets;
pub use driver::excerpt;
pub use driver::join_outcome;
pub use driver::process;
pub use driver::skip;
pub use driver::JoinError;
pub use driver::NumberErr;
pub use driver::Offable;
pub use driver::On;
pub use driver::OnErr;
pub use driver::ParseFailure;
pub use driver::ProcessError;
pub use driver::Seen;
pub use extract::extract_whitespaces;
pub use extract::scan_gap;
pub use extract::TokenSpan;
pub use format::finish;
pub use format::format_ast;
pub use format::FormatError;
pub use format::FormatRes;
pub use format::LostComments;
pub use margin::want_blank_line;
pub use margin::MarginGroup;
pub use model::Alignment;
pub use model::SegmentMode;
pub use render::render;
pub use sg_general::Syntax;
pub use sg_tokens::from_tokens;
pub use sg_tokens::SourceToken;
pub use sg_tokens::TokenKind;
pub use syntax::File;
pub use syntax::Item;
pub use whitespace::Comment;
pub use whitespace::CommentMode;
pub use whitespace::Gap;
pub use whitespace::LineColumn;
pub use whitespace::Whitespace;
