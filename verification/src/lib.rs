//! Distillation: turning a semi-structured document value into a
//! strongly-typed domain value while collecting every field-level
//! validation failure into a structured error tree.

mod codec;
mod distill;
mod engine;
mod errors;
mod pipeline;
mod value;

pub use codec::encode_error;
pub use codec::decode_error;
pub use codec::encode_named;
pub use codec::decode_named;
pub use codec::encode_indexed;
pub use codec::decode_indexed;
pub use codec::error_bounded;
pub use codec::named_bounded;
pub use codec::indexed_bounded;
pub use codec::is_entry_encoding;
pub use codec::lemma_decode_encode;
pub use distill::Distilled;
pub use engine::Distillate;
pub use engine::DistillateView;
pub use engine::TypeDesc;
pub use engine::distillate_view;
pub use engine::distillates_view;
pub use engine::spec_distill;
pub use engine::distill_value;
pub use engine::distill_record;
pub use engine::distill_tuple;
pub use engine::record_errors;
pub use engine::record_values;
pub use engine::tuple_errors;
pub use engine::tuple_values;
pub use engine::failing_fields;
pub use engine::error_keys;
pub use engine::lemma_record_all_ok;
pub use engine::lemma_single_failing_field;
pub use engine::lemma_record_errors_keys;
pub use engine::failing_positions;
pub use engine::error_positions;
pub use engine::lemma_tuple_all_ok;
pub use engine::lemma_tuple_errors_positions;
pub use errors::Error;
pub use errors::ErrorEntry;
pub use errors::ErrorMap;
pub use errors::EntryView;
pub use errors::ErrorView;
pub use errors::entry_view;
pub use errors::error_view;
pub use errors::named_errors_view;
pub use errors::indexed_errors_view;
pub use pipeline::LengthArgs;
pub use pipeline::Rule;
pub use pipeline::Xform;
pub use pipeline::apply_xform;
pub use pipeline::apply_xforms;
pub use pipeline::check_rule;
pub use pipeline::check_rules;
pub use pipeline::trim_string;
pub use pipeline::byte_len;
pub use pipeline::is_email;
pub use pipeline::is_space_char;
pub use pipeline::rule_code;
pub use pipeline::rule_ok;
pub use pipeline::rules_failure;
pub use pipeline::lemma_first_failure_wins;
pub use pipeline::lemma_rules_all_ok;
pub use pipeline::trim_view;
pub use pipeline::xform_view;
pub use pipeline::xforms_view;
pub use pipeline::drop_leading_space;
pub use pipeline::drop_trailing_space;
pub use value::Value;
pub use value::ValueView;
pub use value::value_view;
pub use value::values_view;
pub use value::entries_view;
pub use value::opt_value_view;
pub use value::lookup_key_view;
pub use value::lookup_index_view;
pub use value::obj_lookup_view;
