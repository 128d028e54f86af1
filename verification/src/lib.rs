//! Compiler and matcher for HTTP-style route templates.
//!
//! A template such as `/users/{id:[0-9]+}/posts/{slug}` is compiled into an
//! anchored regular expression together with a variable-extraction plan; a
//! compiled route then matches request components and rebuilds them from
//! variable bindings.  Two helpers stand beside the compiler: a query-string
//! scanner and a locator for the brace-delimited placeholders of a template.

mod braces;
mod caps;
mod engine;
mod errors;
mod query;
mod route;

pub use braces::brace_indices;
pub use braces::brace_spec;
pub use braces::byte_index;
pub use braces::char_width;
pub use braces::lemma_brace_byte_ranges;
pub use braces::lemma_brace_ranges;
pub use braces::lemma_byte_index_bounds;
pub use braces::lemma_byte_index_encode;
pub use braces::ranges_match;
pub use caps::cap_count;
pub use caps::lemma_capture_groups;
pub use caps::sub_no_groups;
pub use engine::regex_found;
pub use engine::regex_groups;
pub use engine::regex_pattern;
pub use engine::regex_valid;
pub use errors::RouteError;
pub use query::find_first_query_key;
pub use query::lemma_absent_key;
pub use query::pct_decoded;
pub use query::query_value;
pub use query::seg_hit;
pub use query::seg_key;
pub use query::seg_val;
pub use query::segments_of;
pub use query::str_eq;
pub use route::anchored;
pub use route::build_vals;
pub use route::compile;
pub use route::compile_err;
pub use route::default_sub;
pub use route::group_text;
pub use route::interleave;
pub use route::lemma_vars_lengths;
pub use route::lemma_vars_parallel;
pub use route::lookup_binding;
pub use route::pattern_model;
pub use route::rev_join;
pub use route::rev_lits_model;
pub use route::vars_model;
pub use route::wildcard_of;
pub use route::RegexpType;
pub use route::RouteRegexp;
pub use route::RouteRegexpGroup;
pub use route::RouteRegexpOptions;
