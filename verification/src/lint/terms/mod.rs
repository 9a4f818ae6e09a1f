pub mod acronyms;
pub mod candidates;
pub mod lexicon_occurrences;
pub mod registry;

pub use acronyms::{AcronymDefinitionEntry, AcronymUsageEntry};
pub use candidates::{CandidateScore, TermCandidate, TermCandidateEvidence, TermCandidateKindHint};
pub use lexicon_occurrences::LexiconOccurrence;
pub use registry::DocumentTermRegistry;
