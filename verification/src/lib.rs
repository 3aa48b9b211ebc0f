//! Domain agents for the Converge alignment engine, with verified behaviour.
//!
//! Each domain is a pipeline of agents that read a shared context and
//! propose facts, and invariants that judge the context. Every agent states
//! exactly when it runs and what it proposes; every invariant states exactly
//! when it holds and what it reports otherwise.
//!
//! Domains: [`growth_strategy`], [`meeting_scheduler`], [`resource_routing`],
//! [`release_readiness`], [`supply_chain`], [`inventory_rebalancing`],
//! [`strategic_sourcing`], [`catalog_enrichment`], [`crm_account_health`],
//! [`compliance_monitoring`]; and domain-level [`evals`].
pub mod agent;
pub mod catalog_enrichment;
pub mod compliance_monitoring;
pub mod context;
pub mod crm_account_health;
pub mod evals;
pub mod growth_strategy;
pub mod inventory_rebalancing;
pub mod meeting_scheduler;
pub mod rank;
pub mod release_readiness;
pub mod resource_routing;
pub mod strategic_sourcing;
pub mod supply_chain;
pub mod text;

pub use growth_strategy::{
    BrandSafetyInvariant, CompetitorAgent, EvaluationAgent, MarketSignalAgent,
    RequireEvaluationRationale, RequireMultipleStrategies, RequireStrategyEvaluations,
    StrategyAgent,
};

pub use meeting_scheduler::{
    AvailabilityRetrievalAgent, ConflictDetectionAgent, RequireParticipantAvailability,
    RequirePositiveDuration, RequireValidSlot, SlotOptimizationAgent, TimeZoneNormalizationAgent,
    WorkingHoursConstraintAgent,
};

pub use resource_routing::{
    ConstraintValidationAgent, FeasibilityAgent, RequireAllTasksAssigned,
    RequireCapacityRespected, RequireValidDefinitions, ResourceRetrievalAgent, SolverAgent,
    TaskRetrievalAgent,
};

pub use release_readiness::{
    DependencyGraphAgent, DocumentationAgent, PerformanceRegressionAgent, ReleaseReadyAgent,
    RequireAllChecksComplete, RequireMinimumCoverage, RequireNoCriticalVulnerabilities,
    RiskSummaryAgent, SecurityScanAgent, TestCoverageAgent,
};

pub use supply_chain::{
    ConsolidationAgent, CostEstimationAgent, DemandSnapshotAgent, InventoryStateAgent,
    RequireCompleteAssessments, RequireFeasiblePlan, RequireSLACompliance, RiskAssessmentAgent,
    RouteGenerationAgent, SLAValidationAgent, SupplierStatusAgent,
};

pub use inventory_rebalancing::{
    CapacityConstraintAgent, FinancialImpactAgent, ForecastAgent, InventoryAgent,
    RebalanceDecisionAgent, RequireBudgetCompliance, RequireCompleteForecasts, RequireSafetyStock,
    SalesVelocityAgent, TransferOptimizationAgent,
};

pub use strategic_sourcing::{
    ComplianceAgent, ESGScoringAgent, PriceBenchmarkAgent,
    RequireCompleteAssessments as RequireSourcingAssessments, RequireCompliantVendor,
    RequireShortlistCompliance, RiskModelAgent, SourcingStrategyAgent, SupplierDiscoveryAgent,
    VendorRankingAgent,
};

pub use catalog_enrichment::{
    AttributeNormalizationAgent, CategoryInferenceAgent, DeduplicationAgent, FeedIngestionAgent,
    PricingValidationAgent, ProductReadyAgent, RequireNoDuplicates, RequireRequiredAttributes,
    RequireValidPrices, SchemaInvariantAgent,
};

pub use crm_account_health::{
    ActionPrioritizationAgent, ChurnRiskAgent, RequireChurnActionPlan, RequireCompleteAnalysis,
    RevenueTrendAgent, SupportTicketAgent, UpsellOpportunityAgent, UsageSignalAgent,
};

pub use compliance_monitoring::{
    EvidenceCollectorAgent, PolicyRuleAgent, RegulationParserAgent, RemediationProposalAgent,
    RequireEvidenceForAllRegulations, RequireRemediationPlans, ViolationDetectorAgent,
};
