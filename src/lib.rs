//! Records shell commands into reusable script files, with an embedded
//! settings block kept as comment lines inside each script.

pub mod capture;
pub mod recorder;
pub mod script;
pub mod settings;
pub mod text;

pub use capture::{join_words, plan_capture};
pub use recorder::{record_step, step_text};
pub use script::{header_to_add, is_script_file, script_file_name, script_files, script_header};
pub use settings::{
    answer_enables_step_comments, folded_answer_is_yes, set_step_comments, setting_line_text,
    step_comments_enabled,
};
pub use text::{contains_text, ends_with_text, find_text, same_text};
