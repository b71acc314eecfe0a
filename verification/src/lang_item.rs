//! The names of the compiler's language items, as a pattern file may refer to
//! them.

use vstd::prelude::*;

verus! {

/// The language items known to patterns, by name, in the order of the
/// compiler's table.
pub open spec fn lang_item_names() -> Seq<Seq<char>> {
    seq![
        "sized"@,
        "unsize"@,
        "structural_peq"@,
        "copy"@,
        "clone"@,
        "clone_fn"@,
        "sync"@,
        "discriminant_kind"@,
        "discriminant_type"@,
        "pointee_trait"@,
        "metadata_type"@,
        "dyn_metadata"@,
        "freeze"@,
        "fn_ptr_trait"@,
        "fn_ptr_addr"@,
        "drop"@,
        "destruct"@,
        "async_drop"@,
        "async_destruct"@,
        "async_drop_in_place"@,
        "surface_async_drop_in_place"@,
        "async_drop_surface_drop_in_place"@,
        "async_drop_slice"@,
        "async_drop_chain"@,
        "async_drop_noop"@,
        "async_drop_deferred_drop_in_place"@,
        "async_drop_fuse"@,
        "async_drop_defer"@,
        "async_drop_either"@,
        "coerce_unsized"@,
        "dispatch_from_dyn"@,
        "transmute_opts"@,
        "transmute_trait"@,
        "add"@,
        "sub"@,
        "mul"@,
        "div"@,
        "rem"@,
        "neg"@,
        "not"@,
        "bitxor"@,
        "bitand"@,
        "bitor"@,
        "shl"@,
        "shr"@,
        "add_assign"@,
        "sub_assign"@,
        "mul_assign"@,
        "div_assign"@,
        "rem_assign"@,
        "bitxor_assign"@,
        "bitand_assign"@,
        "bitor_assign"@,
        "shl_assign"@,
        "shr_assign"@,
        "index"@,
        "index_mut"@,
        "unsafe_cell"@,
        "va_list"@,
        "deref"@,
        "deref_mut"@,
        "deref_pure"@,
        "deref_target"@,
        "receiver"@,
        "receiver_target"@,
        "legacy_receiver"@,
        "Fn"@,
        "fn_mut"@,
        "fn_once"@,
        "async_fn"@,
        "async_fn_mut"@,
        "async_fn_once"@,
        "async_fn_once_output"@,
        "call_once_future"@,
        "call_ref_future"@,
        "async_fn_kind_helper"@,
        "async_fn_kind_upvars"@,
        "fn_once_output"@,
        "iterator"@,
        "fused_iterator"@,
        "future_trait"@,
        "future_output"@,
        "async_iterator"@,
        "coroutine_state"@,
        "coroutine"@,
        "coroutine_return"@,
        "coroutine_yield"@,
        "coroutine_resume"@,
        "unpin"@,
        "pin"@,
        "Ordering"@,
        "eq"@,
        "partial_ord"@,
        "c_void"@,
        "panic"@,
        "panic_nounwind"@,
        "panic_fmt"@,
        "const_panic_fmt"@,
        "panic_bounds_check"@,
        "panic_misaligned_pointer_dereference"@,
        "panic_info"@,
        "panic_location"@,
        "panic_impl"@,
        "panic_cannot_unwind"@,
        "panic_in_cleanup"@,
        "panic_const_add_overflow"@,
        "panic_const_sub_overflow"@,
        "panic_const_mul_overflow"@,
        "panic_const_div_overflow"@,
        "panic_const_rem_overflow"@,
        "panic_const_neg_overflow"@,
        "panic_const_shr_overflow"@,
        "panic_const_shl_overflow"@,
        "panic_const_div_by_zero"@,
        "panic_const_rem_by_zero"@,
        "panic_const_coroutine_resumed"@,
        "panic_const_async_fn_resumed"@,
        "panic_const_async_gen_fn_resumed"@,
        "panic_const_gen_fn_none"@,
        "panic_const_coroutine_resumed_panic"@,
        "panic_const_async_fn_resumed_panic"@,
        "panic_const_async_gen_fn_resumed_panic"@,
        "panic_const_gen_fn_none_panic"@,
        "panic_null_pointer_dereference"@,
        "begin_panic"@,
        "format_alignment"@,
        "format_argument"@,
        "format_arguments"@,
        "format_count"@,
        "format_placeholder"@,
        "format_unsafe_arg"@,
        "exchange_malloc"@,
        "drop_in_place"@,
        "fallback_surface_drop"@,
        "alloc_layout"@,
        "start"@,
        "eh_personality"@,
        "eh_catch_typeinfo"@,
        "owned_box"@,
        "global_alloc_ty"@,
        "ptr_unique"@,
        "phantom_data"@,
        "manually_drop"@,
        "bikeshed_guaranteed_no_drop"@,
        "maybe_uninit"@,
        "termination"@,
        "Try"@,
        "tuple_trait"@,
        "slice_len_fn"@,
        "from_residual"@,
        "from_output"@,
        "branch"@,
        "from_yeet"@,
        "pointer_like"@,
        "coerce_pointee_validated"@,
        "const_param_ty"@,
        "unsized_const_param_ty"@,
        "Poll"@,
        "Ready"@,
        "Pending"@,
        "AsyncGenReady"@,
        "AsyncGenPending"@,
        "AsyncGenFinished"@,
        "ResumeTy"@,
        "get_context"@,
        "Context"@,
        "poll"@,
        "async_iterator_poll_next"@,
        "into_async_iter_into_iter"@,
        "Option"@,
        "Some"@,
        "None"@,
        "Ok"@,
        "Err"@,
        "Continue"@,
        "Break"@,
        "into_future"@,
        "into_iter"@,
        "next"@,
        "new_unchecked"@,
        "RangeFrom"@,
        "RangeFull"@,
        "RangeInclusive"@,
        "range_inclusive_new"@,
        "Range"@,
        "RangeToInclusive"@,
        "RangeTo"@,
        "RangeFromCopy"@,
        "RangeCopy"@,
        "RangeInclusiveCopy"@,
        "String"@,
        "CStr"@,
        "contract_build_check_ensures"@,
        "contract_check_requires"@
    ]
}

/// Whether `name` is the name of a language item.
pub fn is_lang_item(name: &str) -> (r: bool)
    ensures
        r == lang_item_names().contains(name@),
{
    let names: [&str; 194] = [
        "sized",
        "unsize",
        "structural_peq",
        "copy",
        "clone",
        "clone_fn",
        "sync",
        "discriminant_kind",
        "discriminant_type",
        "pointee_trait",
        "metadata_type",
        "dyn_metadata",
        "freeze",
        "fn_ptr_trait",
        "fn_ptr_addr",
        "drop",
        "destruct",
        "async_drop",
        "async_destruct",
        "async_drop_in_place",
        "surface_async_drop_in_place",
        "async_drop_surface_drop_in_place",
        "async_drop_slice",
        "async_drop_chain",
        "async_drop_noop",
        "async_drop_deferred_drop_in_place",
        "async_drop_fuse",
        "async_drop_defer",
        "async_drop_either",
        "coerce_unsized",
        "dispatch_from_dyn",
        "transmute_opts",
        "transmute_trait",
        "add",
        "sub",
        "mul",
        "div",
        "rem",
        "neg",
        "not",
        "bitxor",
        "bitand",
        "bitor",
        "shl",
        "shr",
        "add_assign",
        "sub_assign",
        "mul_assign",
        "div_assign",
        "rem_assign",
        "bitxor_assign",
        "bitand_assign",
        "bitor_assign",
        "shl_assign",
        "shr_assign",
        "index",
        "index_mut",
        "unsafe_cell",
        "va_list",
        "deref",
        "deref_mut",
        "deref_pure",
        "deref_target",
        "receiver",
        "receiver_target",
        "legacy_receiver",
        "Fn",
        "fn_mut",
        "fn_once",
        "async_fn",
        "async_fn_mut",
        "async_fn_once",
        "async_fn_once_output",
        "call_once_future",
        "call_ref_future",
        "async_fn_kind_helper",
        "async_fn_kind_upvars",
        "fn_once_output",
        "iterator",
        "fused_iterator",
        "future_trait",
        "future_output",
        "async_iterator",
        "coroutine_state",
        "coroutine",
        "coroutine_return",
        "coroutine_yield",
        "coroutine_resume",
        "unpin",
        "pin",
        "Ordering",
        "eq",
        "partial_ord",
        "c_void",
        "panic",
        "panic_nounwind",
        "panic_fmt",
        "const_panic_fmt",
        "panic_bounds_check",
        "panic_misaligned_pointer_dereference",
        "panic_info",
        "panic_location",
        "panic_impl",
        "panic_cannot_unwind",
        "panic_in_cleanup",
        "panic_const_add_overflow",
        "panic_const_sub_overflow",
        "panic_const_mul_overflow",
        "panic_const_div_overflow",
        "panic_const_rem_overflow",
        "panic_const_neg_overflow",
        "panic_const_shr_overflow",
        "panic_const_shl_overflow",
        "panic_const_div_by_zero",
        "panic_const_rem_by_zero",
        "panic_const_coroutine_resumed",
        "panic_const_async_fn_resumed",
        "panic_const_async_gen_fn_resumed",
        "panic_const_gen_fn_none",
        "panic_const_coroutine_resumed_panic",
        "panic_const_async_fn_resumed_panic",
        "panic_const_async_gen_fn_resumed_panic",
        "panic_const_gen_fn_none_panic",
        "panic_null_pointer_dereference",
        "begin_panic",
        "format_alignment",
        "format_argument",
        "format_arguments",
        "format_count",
        "format_placeholder",
        "format_unsafe_arg",
        "exchange_malloc",
        "drop_in_place",
        "fallback_surface_drop",
        "alloc_layout",
        "start",
        "eh_personality",
        "eh_catch_typeinfo",
        "owned_box",
        "global_alloc_ty",
        "ptr_unique",
        "phantom_data",
        "manually_drop",
        "bikeshed_guaranteed_no_drop",
        "maybe_uninit",
        "termination",
        "Try",
        "tuple_trait",
        "slice_len_fn",
        "from_residual",
        "from_output",
        "branch",
        "from_yeet",
        "pointer_like",
        "coerce_pointee_validated",
        "const_param_ty",
        "unsized_const_param_ty",
        "Poll",
        "Ready",
        "Pending",
        "AsyncGenReady",
        "AsyncGenPending",
        "AsyncGenFinished",
        "ResumeTy",
        "get_context",
        "Context",
        "poll",
        "async_iterator_poll_next",
        "into_async_iter_into_iter",
        "Option",
        "Some",
        "None",
        "Ok",
        "Err",
        "Continue",
        "Break",
        "into_future",
        "into_iter",
        "next",
        "new_unchecked",
        "RangeFrom",
        "RangeFull",
        "RangeInclusive",
        "range_inclusive_new",
        "Range",
        "RangeToInclusive",
        "RangeTo",
        "RangeFromCopy",
        "RangeCopy",
        "RangeInclusiveCopy",
        "String",
        "CStr",
        "contract_build_check_ensures",
        "contract_check_requires"
    ];
    let ghost table = names@.map_values(|s: &str| s@);
    assert(table =~= lang_item_names());
    let owned = name.to_owned();
    let mut i: usize = 0;
    while i < names.len()
        invariant
            i <= names@.len(),
            table == names@.map_values(|s: &str| s@),
            table == lang_item_names(),
            owned@ == name@,
            forall|j: int| 0 <= j < i ==> table[j] != name@,
        decreases names@.len() - i,
    {
        if owned == names[i].to_owned() {
            assert(lang_item_names()[i as int] == name@);
            return true;
        }
        i += 1;
    }
    assert forall|j: int| 0 <= j < table.len() implies table[j] != name@ by {}
    false
}

} // verus!
