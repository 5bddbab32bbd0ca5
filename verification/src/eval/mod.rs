//! Evaluation fixtures and helpers: difficulty levels, the mini corpus,
//! faithfulness scoring inputs and oracle answers.
pub mod acc_harness;
pub mod faithfulness;
pub mod faithfulness_judge;
pub mod golden_acc;
pub mod graphrag_corpus;
pub mod graphrag_levels;
