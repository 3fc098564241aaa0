//! Reading the tagfile container format.

mod bitfield;
pub(crate) mod common;
mod definition;
mod driver;
mod nodes;
mod state;
mod string;
mod varint;

pub use bitfield::{bitfield_bit, bitfield_bytes};
pub use common::{le_bytes_val, read_u8, read_u16, read_u32, read_u64};
pub use definition::{
    fields_view, kind_view, spec_read_base_kind, spec_read_definition, spec_read_fields,
    spec_read_kind, FieldKindView,
};
pub use driver::{read, MAGIC};
pub use nodes::{
    column_element_matches, column_read, columns_read, f32_vecs_of, float_arrays_read,
    floats_read, i32s_of, lemma_parse_step_refl, lemma_parse_step_trans, mask_read_at,
    nones_stay, parse_step, refs_read_ok, spec_find_definition, strs_of, u32s_of, ColumnView,
};
pub use string::{spec_cached_string, strings_read, strings_view};
pub use state::{
    lemma_pending_find_mem, lemma_seq_prefix_trans, pending_find, pending_unique,
    same_but_pending, same_but_pos_strings, state_wf, Tagfile,
};
pub use varint::{
    lemma_varint_end_bounds, lemma_varint_round_trip, read_i32, varint_enc_rest, varint_encode,
    varint_end, varint_raw, varint_rest, varint_value, varints_read,
};
