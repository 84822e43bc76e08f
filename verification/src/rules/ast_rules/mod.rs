pub mod r060_unused_variable;
pub mod r061_nil_comparison;
pub mod r062_deep_nesting;
