//! Error types of the services, with their retry and severity classification.
use vstd::prelude::*;
use vstd::string::StringExecFns;
use crate::detection::{BatchAnalysisResult, DetectionResult};

verus! {

/// Encryption-specific errors.
#[derive(Debug, Clone, PartialEq, Eq)]
pub enum EncryptionError {
    InsufficientShares { required: u32, actual: u32 },
    InvalidShare { validator_id: u32 },
    TransactionNotFound { tx_id: String },
    NotReadyForDecryption,
    EncryptionTimeout,
    KeyGenerationFailed { reason: String },
    CryptoError(String),
}

/// Ordering service errors.
#[derive(Debug, Clone, PartialEq, Eq)]
pub enum OrderingError {
    VDFComputationFailed(String),
    InvalidProof,
    CommitmentFailed(String),
    BatchProcessingFailed(String),
    InvalidParameters(String),
}

/// Detection service errors.
#[derive(Debug, Clone, PartialEq, Eq)]
pub enum DetectionError {
    PatternDetectionFailed(String),
    UnsupportedOperation,
    AnalysisTimeout,
    InsufficientData,
    DecodingFailed(String),
    HistoryUpdateFailed(String),
}

/// Redistribution service errors.
#[derive(Debug, Clone, PartialEq, Eq)]
pub enum RedistributionError {
    MEVCalculationFailed(String),
    DistributionCalculationFailed(String),
    PaymentProcessingFailed(String),
    InsufficientFunds,
    ContributionUpdateFailed(String),
    DistributionNotDue,
}

/// Storage errors.
#[derive(Debug, Clone, PartialEq, Eq)]
pub enum StorageError {
    ConnectionFailed(String),
    QueryFailed(String),
    SerializationFailed(String),
    DeserializationFailed(String),
    RollbackFailed(String),
    CacheFailed(String),
    MigrationFailed(String),
}

/// Blockchain adapter errors.
#[derive(Debug, Clone, PartialEq, Eq)]
pub enum BlockchainError {
    RpcFailed(String),
    SubmissionFailed(String),
    BlockNotFound { block_number: u64 },
    TransactionNotFound { tx_hash: String },
    UnsupportedNetwork { chain_id: u64 },
    GasEstimationFailed(String),
    NonceFailed(String),
    ConnectionTimeout,
}

/// Validation errors.
#[derive(Debug, Clone, PartialEq, Eq)]
pub enum ValidationError {
    InvalidAddress { address: String },
    InvalidTransactionHash { hash: String },
    GasLimitTooHigh { gas_limit: u64 },
    ValueTooLarge { value: String },
    InvalidNonce { nonce: u64 },
    MaliciousRecipient { address: String },
    SuspiciousPattern,
    UnsupportedChainId { chain_id: u64 },
}

/// Rate limiting errors.
#[derive(Debug, Clone, PartialEq, Eq)]
pub enum RateLimitError {
    ExceededLimit { client_id: String },
    InvalidConfiguration,
    StorageError(String),
}

/// Authentication and authorization errors.
#[derive(Debug, Clone, PartialEq, Eq)]
pub enum AuthError {
    InvalidApiKey,
    ApiKeyExpired,
    InsufficientPermissions,
    AuthenticationFailed(String),
    TokenValidationFailed(String),
}

/// Batch processing errors.
#[derive(Debug, Clone, PartialEq, Eq)]
pub enum BatchError {
    SizeExceeded { size: usize },
    ProcessingTimeout,
    PartialFailure { succeeded: usize, total: usize },
    ValidationFailed(String),
}

/// Monitoring and metrics errors.
#[derive(Debug, Clone, PartialEq, Eq)]
pub enum MonitoringError {
    MetricsCollectionFailed(String),
    AlertSystemFailure(String),
    ThresholdDetectionFailure(String),
    MetricsExportFailed(String),
}

/// Error severity levels for logging and alerting.
#[derive(Debug, Clone, Copy, PartialEq, Eq, Structural)]
pub enum ErrorSeverity {
    Info,
    Warning,
    Error,
    Critical,
}

/// Main error type of the services.
#[derive(Debug)]
pub enum MEVShieldError {
    Configuration(String),
    InvalidTransaction(String),
    MEVDetected(DetectionResult),
    BatchMEVDetected(BatchAnalysisResult),
    Encryption(EncryptionError),
    OrderingService(OrderingError),
    Detection(DetectionError),
    Redistribution(RedistributionError),
    Storage(StorageError),
    Blockchain(BlockchainError),
    Network(String),
    Validation(ValidationError),
    Timeout(String),
    ResourceExhausted(String),
    Internal(String),
    ServiceUnavailable(String),
}

/// Errors worth retrying: network trouble, timeouts, unavailable services, a failed
/// storage connection and a blockchain connection timeout.
pub open spec fn spec_is_retriable(e: MEVShieldError) -> bool {
    ||| e is Network
    ||| e is Timeout
    ||| e is ServiceUnavailable
    ||| (e matches MEVShieldError::Storage(s) && s is ConnectionFailed)
    ||| (e matches MEVShieldError::Blockchain(b) && b is ConnectionTimeout)
}

/// Detected MEV is critical; bad input, validation, timeouts and the network are warnings;
/// internal and configuration faults are errors; the rest is informational.
pub open spec fn spec_severity(e: MEVShieldError) -> ErrorSeverity {
    if e is MEVDetected || e is BatchMEVDetected {
        ErrorSeverity::Critical
    } else if e is InvalidTransaction || e is Validation || e is Timeout || e is Network {
        ErrorSeverity::Warning
    } else if e is Internal || e is Configuration {
        ErrorSeverity::Error
    } else {
        ErrorSeverity::Info
    }
}

impl MEVShieldError {
    /// Prefixes the message of an internal error with `context`; other errors pass through.
    pub fn with_context(self, context: &str) -> (r: Self)
        ensures
            match self {
                MEVShieldError::Internal(msg) => r matches MEVShieldError::Internal(m)
                    && m@ == context@ + ": "@ + msg@,
                _ => r == self,
            },
    {
        match self {
            MEVShieldError::Internal(msg) => {
                let mut m = String::from_str(context);
                m.append(": ");
                m.append(msg.as_str());
                MEVShieldError::Internal(m)
            },
            other => other,
        }
    }

    /// Whether the operation that failed is worth retrying.
    pub fn is_retriable(&self) -> (r: bool)
        ensures
            r == spec_is_retriable(*self),
    {
        match self {
            MEVShieldError::Network(_) => true,
            MEVShieldError::Timeout(_) => true,
            MEVShieldError::ServiceUnavailable(_) => true,
            MEVShieldError::Storage(StorageError::ConnectionFailed(_)) => true,
            MEVShieldError::Blockchain(BlockchainError::ConnectionTimeout) => true,
            _ => false,
        }
    }

    /// The severity with which the error is logged and alerted.
    pub fn severity(&self) -> (r: ErrorSeverity)
        ensures
            r == spec_severity(*self),
    {
        match self {
            MEVShieldError::MEVDetected(_) | MEVShieldError::BatchMEVDetected(_) => ErrorSeverity::Critical,
            MEVShieldError::InvalidTransaction(_) | MEVShieldError::Validation(_) => ErrorSeverity::Warning,
            MEVShieldError::Timeout(_) | MEVShieldError::Network(_) => ErrorSeverity::Warning,
            MEVShieldError::Internal(_) | MEVShieldError::Configuration(_) => ErrorSeverity::Error,
            _ => ErrorSeverity::Info,
        }
    }
}

} // verus!
