pub mod metrics;

pub use self::metrics::{
    AnalysisOptions, AtRiskFile, BusFactorInfo, CommitRecord, CommitSummary, ContributorStats, Coupling, FileChurn,
    FileDelta, LanguageStat, Ownership, RepoSnapshot, RepoStats, TimelineGranularity, TimelinePoint, Timestamp,
};
