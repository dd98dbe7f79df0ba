//! Configuration of the services with their defaults and the checks a configuration must
//! pass. Durations are whole seconds; percentages are hundredths of a percent.
use vstd::prelude::*;

verus! {

/// Block builder configuration.
#[derive(Debug, Clone, Copy, PartialEq, Eq, Structural)]
pub struct BlockBuilderConfig {
    pub max_block_size: u32,
    /// Seconds.
    pub target_block_time: u64,
    pub min_transactions: u32,
}

impl Default for BlockBuilderConfig {
    fn default() -> (c: Self)
        ensures
            c == (BlockBuilderConfig { max_block_size: 30_000_000, target_block_time: 12, min_transactions: 10 }),
    {
        BlockBuilderConfig { max_block_size: 30_000_000, target_block_time: 12, min_transactions: 10 }
    }
}

/// Encryption service configuration.
#[derive(Debug, Clone, Copy, PartialEq, Eq, Structural)]
pub struct EncryptionConfig {
    /// Threshold for decryption (a share of the validators).
    pub threshold: u32,
    pub total_validators: u32,
    pub max_pool_size: u32,
    /// Seconds.
    pub cleanup_interval: u64,
    /// Seconds.
    pub encryption_timeout: u64,
    /// Seconds before a transaction may be decrypted.
    pub minimum_age: u64,
}

impl Default for EncryptionConfig {
    fn default() -> (c: Self)
        ensures
            c == (EncryptionConfig {
                threshold: 67,
                total_validators: 100,
                max_pool_size: 10000,
                cleanup_interval: 300,
                encryption_timeout: 30,
                minimum_age: 5,
            }),
    {
        EncryptionConfig {
            threshold: 67,
            total_validators: 100,
            max_pool_size: 10000,
            cleanup_interval: 300,
            encryption_timeout: 30,
            minimum_age: 5,
        }
    }
}

/// Ordering service configuration.
#[derive(Debug, Clone, Copy, PartialEq, Eq, Structural)]
pub struct OrderingConfig {
    pub vdf_difficulty: u64,
    pub vdf_security_param: u32,
    pub batch_size: u32,
    /// Seconds.
    pub computation_timeout: u64,
    pub verify_proofs: bool,
}

impl Default for OrderingConfig {
    fn default() -> (c: Self)
        ensures
            c == (OrderingConfig {
                vdf_difficulty: 100000,
                vdf_security_param: 256,
                batch_size: 100,
                computation_timeout: 60,
                verify_proofs: true,
            }),
    {
        OrderingConfig {
            vdf_difficulty: 100000,
            vdf_security_param: 256,
            batch_size: 100,
            computation_timeout: 60,
            verify_proofs: true,
        }
    }
}

/// Sandwich detection settings of the detection service.
#[derive(Debug, Clone)]
pub struct SandwichDetectionConfig {
    pub max_distance: usize,
    /// Decimal wei, as text to hold large numbers.
    pub min_profit_threshold_wei: String,
    pub same_token_required: bool,
    pub decode_dex_operations: bool,
}

impl Default for SandwichDetectionConfig {
    fn default() -> (c: Self)
        ensures
            c.max_distance == 5,
            c.min_profit_threshold_wei@ == "1000000000000000"@,
            c.same_token_required,
            c.decode_dex_operations,
    {
        SandwichDetectionConfig {
            max_distance: 5,
            min_profit_threshold_wei: String::from_str("1000000000000000"),
            same_token_required: true,
            decode_dex_operations: true,
        }
    }
}

/// Front-running detection settings.
#[derive(Debug, Clone, Copy, PartialEq, Eq, Structural)]
pub struct FrontrunDetectionConfig {
    /// Seconds.
    pub max_time_difference: u64,
    /// Minimum ratio of gas prices, in hundredths of a percent (11000 is 1.1).
    pub min_gas_price_differential: u32,
    pub mempool_monitoring: bool,
}

impl Default for FrontrunDetectionConfig {
    fn default() -> (c: Self)
        ensures
            c == (FrontrunDetectionConfig {
                max_time_difference: 30,
                min_gas_price_differential: 11000,
                mempool_monitoring: true,
            }),
    {
        FrontrunDetectionConfig { max_time_difference: 30, min_gas_price_differential: 11000, mempool_monitoring: true }
    }
}

/// Detection service configuration.
#[derive(Debug, Clone)]
pub struct DetectionConfig {
    pub sandwich_detection_enabled: bool,
    pub frontrun_detection_enabled: bool,
    pub arbitrage_detection_enabled: bool,
    /// Seconds.
    pub window_size: u64,
    pub max_history_size: usize,
    /// Confidence threshold for alerts, in percent.
    pub confidence_threshold: u32,
    pub sandwich: SandwichDetectionConfig,
    pub frontrun: FrontrunDetectionConfig,
}

impl Default for DetectionConfig {
    fn default() -> (c: Self)
        ensures
            c.sandwich_detection_enabled && c.frontrun_detection_enabled && c.arbitrage_detection_enabled,
            c.window_size == 60,
            c.max_history_size == 10000,
            c.confidence_threshold == 80,
            c.sandwich.max_distance == 5,
            c.frontrun == (FrontrunDetectionConfig {
                max_time_difference: 30,
                min_gas_price_differential: 11000,
                mempool_monitoring: true,
            }),
    {
        DetectionConfig {
            sandwich_detection_enabled: true,
            frontrun_detection_enabled: true,
            arbitrage_detection_enabled: true,
            window_size: 60,
            max_history_size: 10000,
            confidence_threshold: 80,
            sandwich: SandwichDetectionConfig::default(),
            frontrun: FrontrunDetectionConfig::default(),
        }
    }
}

/// Redistribution service configuration.
#[derive(Debug, Clone)]
pub struct RedistributionConfig {
    /// Share of the MEV that goes to users, in hundredths of a percent.
    pub redistribution_percentage: u32,
    /// Seconds.
    pub distribution_frequency: u64,
    /// Decimal wei, as text.
    pub minimum_distribution_wei: String,
    /// Share reserved for gas costs, in hundredths of a percent.
    pub gas_reserve_percentage: u32,
    /// Share for validators, in hundredths of a percent.
    pub validator_share: u32,
    pub auto_distribution: bool,
}

impl Default for RedistributionConfig {
    fn default() -> (c: Self)
        ensures
            c.redistribution_percentage == 8000,
            c.distribution_frequency == 3600,
            c.minimum_distribution_wei@ == "100000000000000000"@,
            c.gas_reserve_percentage == 500,
            c.validator_share == 1500,
            c.auto_distribution,
    {
        RedistributionConfig {
            redistribution_percentage: 8000,
            distribution_frequency: 3600,
            minimum_distribution_wei: String::from_str("100000000000000000"),
            gas_reserve_percentage: 500,
            validator_share: 1500,
            auto_distribution: true,
        }
    }
}

/// Database configuration.
#[derive(Debug, Clone)]
pub struct DatabaseConfig {
    pub url: String,
    pub max_connections: u32,
    pub min_connections: u32,
    /// Seconds.
    pub connect_timeout: u64,
    /// Seconds.
    pub query_timeout: u64,
    pub ssl_mode: bool,
    pub auto_migrate: bool,
}

impl Default for DatabaseConfig {
    fn default() -> (c: Self)
        ensures
            c.url@ == "postgresql://localhost/mevshield"@,
            c.max_connections == 100,
            c.min_connections == 5,
            c.connect_timeout == 30,
            c.query_timeout == 60,
            c.ssl_mode && c.auto_migrate,
    {
        DatabaseConfig {
            url: String::from_str("postgresql://localhost/mevshield"),
            max_connections: 100,
            min_connections: 5,
            connect_timeout: 30,
            query_timeout: 60,
            ssl_mode: true,
            auto_migrate: true,
        }
    }
}

/// Cache configuration.
#[derive(Debug, Clone)]
pub struct CacheConfig {
    pub redis_url: String,
    /// Seconds.
    pub default_ttl: u64,
    pub max_local_cache_size: usize,
    /// Seconds.
    pub local_cache_ttl: u64,
    pub compression: bool,
}

impl Default for CacheConfig {
    fn default() -> (c: Self)
        ensures
            c.redis_url@ == "redis://localhost:6379"@,
            c.default_ttl == 3600,
            c.max_local_cache_size == 1000,
            c.local_cache_ttl == 300,
            c.compression,
    {
        CacheConfig {
            redis_url: String::from_str("redis://localhost:6379"),
            default_ttl: 3600,
            max_local_cache_size: 1000,
            local_cache_ttl: 300,
            compression: true,
        }
    }
}

/// Rate limiting configuration of the API.
#[derive(Debug, Clone, Copy, PartialEq, Eq, Structural)]
pub struct RateLimitConfig {
    pub enabled: bool,
    pub requests_per_window: u32,
    /// Seconds.
    pub window_duration: u64,
    pub burst_limit: u32,
}

impl Default for RateLimitConfig {
    fn default() -> (c: Self)
        ensures
            c == (RateLimitConfig { enabled: true, requests_per_window: 1000, window_duration: 3600, burst_limit: 100 }),
    {
        RateLimitConfig { enabled: true, requests_per_window: 1000, window_duration: 3600, burst_limit: 100 }
    }
}

/// Authentication configuration.
#[derive(Debug, Clone)]
pub struct AuthConfig {
    pub api_key_auth: bool,
    pub jwt_secret: Option<String>,
    /// Seconds.
    pub token_expiry: u64,
    pub admin_endpoints: bool,
}

impl Default for AuthConfig {
    fn default() -> (c: Self)
        ensures
            c.api_key_auth,
            c.jwt_secret is None,
            c.token_expiry == 86400,
            !c.admin_endpoints,
    {
        AuthConfig { api_key_auth: true, jwt_secret: None, token_expiry: 86400, admin_endpoints: false }
    }
}

/// API configuration.
#[derive(Debug, Clone)]
pub struct ApiConfig {
    pub bind_address: String,
    pub port: u16,
    pub cors_enabled: bool,
    pub cors_origins: Vec<String>,
    /// Seconds.
    pub request_timeout: u64,
    pub request_logging: bool,
    pub rate_limiting: RateLimitConfig,
    pub auth: AuthConfig,
}

impl Default for ApiConfig {
    fn default() -> (c: Self)
        ensures
            c.bind_address@ == "0.0.0.0"@,
            c.port == 8080,
            c.cors_enabled,
            c.cors_origins@.len() == 1 && c.cors_origins@[0]@ == "*"@,
            c.request_timeout == 30,
            c.request_logging,
            c.rate_limiting == (RateLimitConfig {
                enabled: true,
                requests_per_window: 1000,
                window_duration: 3600,
                burst_limit: 100,
            }),
            c.auth.token_expiry == 86400,
    {
        let mut cors_origins: Vec<String> = Vec::new();
        cors_origins.push(String::from_str("*"));
        ApiConfig {
            bind_address: String::from_str("0.0.0.0"),
            port: 8080,
            cors_enabled: true,
            cors_origins,
            request_timeout: 30,
            request_logging: true,
            rate_limiting: RateLimitConfig::default(),
            auth: AuthConfig::default(),
        }
    }
}

/// Network-specific configuration.
#[derive(Debug, Clone)]
pub struct NetworkConfig {
    pub name: String,
    pub rpc_url: String,
    pub ws_url: Option<String>,
    pub chain_id: u64,
    /// Gas price multiplier in hundredths of a percent (11000 is 1.1).
    pub gas_price_multiplier: u32,
    pub max_gas_price_gwei: u64,
    pub min_gas_price_gwei: u64,
}

/// Blockchain configuration: the networks by chain id.
#[derive(Debug, Clone)]
pub struct BlockchainConfig {
    pub networks: Vec<(u64, NetworkConfig)>,
    pub default_network: u64,
    pub confirmation_blocks: u64,
    pub mempool_monitoring: bool,
}

/// Whether a network with chain id `id` is configured.
pub open spec fn has_network(networks: Seq<(u64, NetworkConfig)>, id: u64) -> bool {
    exists|i: int| 0 <= i < networks.len() && #[trigger] networks[i].0 == id
}

impl Default for BlockchainConfig {
    fn default() -> (c: Self)
        ensures
            c.networks@.len() == 1,
            c.networks@[0].0 == 1,
            c.networks@[0].1.chain_id == 1,
            c.networks@[0].1.name@ == "Ethereum"@,
            c.default_network == 1,
            c.confirmation_blocks == 12,
            c.mempool_monitoring,
    {
        let mut networks: Vec<(u64, NetworkConfig)> = Vec::new();
        networks.push(
            (
                1,
                NetworkConfig {
                    name: String::from_str("Ethereum"),
                    rpc_url: String::from_str("https://eth-mainnet.alchemyapi.io/v2/your-api-key"),
                    ws_url: Some(String::from_str("wss://eth-mainnet.alchemyapi.io/v2/your-api-key")),
                    chain_id: 1,
                    gas_price_multiplier: 11000,
                    max_gas_price_gwei: 1000,
                    min_gas_price_gwei: 1,
                },
            ),
        );
        BlockchainConfig { networks, default_network: 1, confirmation_blocks: 12, mempool_monitoring: true }
    }
}

/// TLS configuration.
#[derive(Debug, Clone)]
pub struct TlsConfig {
    pub enabled: bool,
    pub cert_file: Option<String>,
    pub key_file: Option<String>,
    pub ca_file: Option<String>,
    pub min_version: String,
}

impl Default for TlsConfig {
    fn default() -> (c: Self)
        ensures
            c.enabled,
            c.cert_file is None && c.key_file is None && c.ca_file is None,
            c.min_version@ == "1.3"@,
    {
        TlsConfig { enabled: true, cert_file: None, key_file: None, ca_file: None, min_version: String::from_str("1.3") }
    }
}

/// Key derivation function parameters.
#[derive(Debug, Clone, Copy, PartialEq, Eq, Structural)]
pub struct KdfParams {
    pub iterations: u32,
    pub memory_kb: u32,
    pub parallelism: u32,
}

impl Default for KdfParams {
    fn default() -> (c: Self)
        ensures
            c == (KdfParams { iterations: 100000, memory_kb: 65536, parallelism: 4 }),
    {
        KdfParams { iterations: 100000, memory_kb: 64 * 1024, parallelism: 4 }
    }
}

/// Key management configuration.
#[derive(Debug, Clone)]
pub struct KeyManagementConfig {
    pub storage_backend: String,
    /// Seconds.
    pub rotation_interval: u64,
    pub hsm_enabled: bool,
    pub kdf_params: KdfParams,
}

impl Default for KeyManagementConfig {
    fn default() -> (c: Self)
        ensures
            c.storage_backend@ == "file"@,
            c.rotation_interval == 2592000,
            !c.hsm_enabled,
            c.kdf_params == (KdfParams { iterations: 100000, memory_kb: 65536, parallelism: 4 }),
    {
        KeyManagementConfig {
            storage_backend: String::from_str("file"),
            rotation_interval: 86400 * 30,
            hsm_enabled: false,
            kdf_params: KdfParams::default(),
        }
    }
}

/// Validator configuration.
#[derive(Debug, Clone)]
pub struct ValidatorConfig {
    pub endpoints: Vec<String>,
    /// Seconds.
    pub request_timeout: u64,
    pub max_retries: u32,
    pub reputation_tracking: bool,
}

impl Default for ValidatorConfig {
    fn default() -> (c: Self)
        ensures
            c.endpoints@.len() == 0,
            c.request_timeout == 10,
            c.max_retries == 3,
            c.reputation_tracking,
    {
        ValidatorConfig { endpoints: Vec::new(), request_timeout: 10, max_retries: 3, reputation_tracking: true }
    }
}

/// Alert thresholds of security monitoring.
#[derive(Debug, Clone, Copy, PartialEq, Eq, Structural)]
pub struct AlertThresholds {
    pub failed_auth_threshold: u32,
    pub suspicious_tx_threshold: u32,
    /// MEV detection rate, in hundredths of a percent.
    pub high_mev_rate_threshold: u32,
}

impl Default for AlertThresholds {
    fn default() -> (c: Self)
        ensures
            c == (AlertThresholds { failed_auth_threshold: 10, suspicious_tx_threshold: 100, high_mev_rate_threshold: 1000 }),
    {
        AlertThresholds { failed_auth_threshold: 10, suspicious_tx_threshold: 100, high_mev_rate_threshold: 1000 }
    }
}

/// Security monitoring configuration.
#[derive(Debug, Clone, Copy, PartialEq, Eq, Structural)]
pub struct SecurityMonitoringConfig {
    pub intrusion_detection: bool,
    pub anomaly_detection: bool,
    pub alert_thresholds: AlertThresholds,
}

impl Default for SecurityMonitoringConfig {
    fn default() -> (c: Self)
        ensures
            c.intrusion_detection && c.anomaly_detection,
            c.alert_thresholds == (AlertThresholds {
                failed_auth_threshold: 10,
                suspicious_tx_threshold: 100,
                high_mev_rate_threshold: 1000,
            }),
    {
        SecurityMonitoringConfig {
            intrusion_detection: true,
            anomaly_detection: true,
            alert_thresholds: AlertThresholds::default(),
        }
    }
}

/// Security configuration.
#[derive(Debug, Clone)]
pub struct SecurityConfig {
    pub tls: TlsConfig,
    pub key_management: KeyManagementConfig,
    pub validators: ValidatorConfig,
    pub monitoring: SecurityMonitoringConfig,
}

impl Default for SecurityConfig {
    fn default() -> (c: Self)
        ensures
            c.tls.enabled,
            c.validators.max_retries == 3,
    {
        SecurityConfig {
            tls: TlsConfig::default(),
            key_management: KeyManagementConfig::default(),
            validators: ValidatorConfig::default(),
            monitoring: SecurityMonitoringConfig::default(),
        }
    }
}

/// Health check configuration.
#[derive(Debug, Clone)]
pub struct HealthCheckConfig {
    pub endpoint: String,
    /// Seconds.
    pub interval: u64,
    /// Seconds.
    pub timeout: u64,
}

impl Default for HealthCheckConfig {
    fn default() -> (c: Self)
        ensures
            c.endpoint@ == "/health"@,
            c.interval == 30,
            c.timeout == 5,
    {
        HealthCheckConfig { endpoint: String::from_str("/health"), interval: 30, timeout: 5 }
    }
}

/// Monitoring configuration.
#[derive(Debug, Clone)]
pub struct MonitoringConfig {
    pub metrics_enabled: bool,
    pub metrics_endpoint: String,
    pub tracing_enabled: bool,
    /// Share of traces sampled, in hundredths of a percent.
    pub trace_sample_rate: u32,
    pub log_level: String,
    pub health_check: HealthCheckConfig,
}

impl Default for MonitoringConfig {
    fn default() -> (c: Self)
        ensures
            c.metrics_enabled && c.tracing_enabled,
            c.metrics_endpoint@ == "/metrics"@,
            c.trace_sample_rate == 1000,
            c.log_level@ == "info"@,
            c.health_check.interval == 30,
    {
        MonitoringConfig {
            metrics_enabled: true,
            metrics_endpoint: String::from_str("/metrics"),
            tracing_enabled: true,
            trace_sample_rate: 1000,
            log_level: String::from_str("info"),
            health_check: HealthCheckConfig::default(),
        }
    }
}

/// Batch processing configuration.
#[derive(Debug, Clone, Copy, PartialEq, Eq, Structural)]
pub struct BatchProcessingConfig {
    pub default_batch_size: usize,
    pub max_batch_size: usize,
    /// Seconds.
    pub batch_timeout: u64,
    pub adaptive_batching: bool,
}

impl Default for BatchProcessingConfig {
    fn default() -> (c: Self)
        ensures
            c == (BatchProcessingConfig {
                default_batch_size: 100,
                max_batch_size: 1000,
                batch_timeout: 10,
                adaptive_batching: true,
            }),
    {
        BatchProcessingConfig { default_batch_size: 100, max_batch_size: 1000, batch_timeout: 10, adaptive_batching: true }
    }
}

/// Memory limits configuration.
#[derive(Debug, Clone, Copy, PartialEq, Eq, Structural)]
pub struct MemoryLimitsConfig {
    pub max_memory_mb: Option<usize>,
    /// Warning threshold, in hundredths of a percent.
    pub warning_threshold_percent: u32,
    pub pressure_handling: bool,
}

impl Default for MemoryLimitsConfig {
    fn default() -> (c: Self)
        ensures
            c == (MemoryLimitsConfig { max_memory_mb: None, warning_threshold_percent: 8000, pressure_handling: true }),
    {
        MemoryLimitsConfig { max_memory_mb: None, warning_threshold_percent: 8000, pressure_handling: true }
    }
}

/// Performance tuning configuration.
#[derive(Debug, Clone, Copy, PartialEq, Eq, Structural)]
pub struct PerformanceConfig {
    pub worker_threads: Option<usize>,
    pub blocking_threads: Option<usize>,
    pub thread_pool_optimization: bool,
    pub batch_processing: BatchProcessingConfig,
    pub memory_limits: MemoryLimitsConfig,
}

impl Default for PerformanceConfig {
    fn default() -> (c: Self)
        ensures
            c.worker_threads is None && c.blocking_threads is None,
            c.thread_pool_optimization,
            c.batch_processing.max_batch_size == 1000,
            c.memory_limits.warning_threshold_percent == 8000,
    {
        PerformanceConfig {
            worker_threads: None,
            blocking_threads: None,
            thread_pool_optimization: true,
            batch_processing: BatchProcessingConfig::default(),
            memory_limits: MemoryLimitsConfig::default(),
        }
    }
}

/// Configuration of the four services.
#[derive(Debug, Clone)]
pub struct ServicesConfig {
    pub encryption: EncryptionConfig,
    pub ordering: OrderingConfig,
    pub detection: DetectionConfig,
    pub redistribution: RedistributionConfig,
}

impl Default for ServicesConfig {
    fn default() -> (c: Self)
        ensures
            c.encryption.threshold == 67 && c.encryption.total_validators == 100,
            c.redistribution.redistribution_percentage == 8000,
            c.redistribution.gas_reserve_percentage == 500,
            c.redistribution.validator_share == 1500,
    {
        ServicesConfig {
            encryption: EncryptionConfig::default(),
            ordering: OrderingConfig::default(),
            detection: DetectionConfig::default(),
            redistribution: RedistributionConfig::default(),
        }
    }
}

/// Main configuration.
#[derive(Debug, Clone)]
pub struct MEVShieldConfig {
    pub services: ServicesConfig,
    pub database: DatabaseConfig,
    pub cache: CacheConfig,
    pub api: ApiConfig,
    pub blockchain: BlockchainConfig,
    pub security: SecurityConfig,
    pub monitoring: MonitoringConfig,
    pub performance: PerformanceConfig,
}

impl Default for MEVShieldConfig {
    fn default() -> (c: Self)
        ensures
            c.services.encryption.threshold == 67 && c.services.encryption.total_validators == 100,
            c.services.redistribution.redistribution_percentage == 8000,
            c.services.redistribution.gas_reserve_percentage == 500,
            c.services.redistribution.validator_share == 1500,
            c.blockchain.networks@.len() == 1,
            c.blockchain.networks@[0].0 == 1,
            c.blockchain.default_network == 1,
    {
        MEVShieldConfig {
            services: ServicesConfig::default(),
            database: DatabaseConfig::default(),
            cache: CacheConfig::default(),
            api: ApiConfig::default(),
            blockchain: BlockchainConfig::default(),
            security: SecurityConfig::default(),
            monitoring: MonitoringConfig::default(),
            performance: PerformanceConfig::default(),
        }
    }
}

/// The first rule that a configuration breaks, if any: a threshold above the validator
/// count, shares above 100%, no network, a default network that is not configured.
pub open spec fn config_violation(c: MEVShieldConfig) -> Option<Seq<char>> {
    if c.services.encryption.threshold > c.services.encryption.total_validators {
        Some("Threshold cannot be greater than total validators"@)
    } else if c.services.redistribution.redistribution_percentage + c.services.redistribution.gas_reserve_percentage
        + c.services.redistribution.validator_share > 10000 {
        Some("Total redistribution percentages exceed 100%"@)
    } else if c.blockchain.networks@.len() == 0 {
        Some("At least one blockchain network must be configured"@)
    } else if !has_network(c.blockchain.networks@, c.blockchain.default_network) {
        Some("Default network not found in configured networks"@)
    } else {
        None
    }
}

impl MEVShieldConfig {
    /// Checks the configuration; the error names the first rule broken.
    pub fn validate(&self) -> (r: Result<(), String>)
        ensures
            match config_violation(*self) {
                None => r is Ok,
                Some(m) => r matches Err(e) && e@ == m,
            },
    {
        if self.services.encryption.threshold > self.services.encryption.total_validators {
            return Err(String::from_str("Threshold cannot be greater than total validators"));
        }
        let total: u64 = self.services.redistribution.redistribution_percentage as u64
            + self.services.redistribution.gas_reserve_percentage as u64
            + self.services.redistribution.validator_share as u64;
        if total > 10000 {
            return Err(String::from_str("Total redistribution percentages exceed 100%"));
        }
        if self.blockchain.networks.len() == 0 {
            return Err(String::from_str("At least one blockchain network must be configured"));
        }
        let mut i: usize = 0;
        let mut found = false;
        while i < self.blockchain.networks.len()
            invariant
                i <= self.blockchain.networks@.len(),
                found == exists|k: int| 0 <= k < i && #[trigger] self.blockchain.networks@[k].0
                    == self.blockchain.default_network,
            decreases self.blockchain.networks@.len() - i,
        {
            if self.blockchain.networks[i].0 == self.blockchain.default_network {
                found = true;
            }
            i = i + 1;
        }
        if !found {
            return Err(String::from_str("Default network not found in configured networks"));
        }
        Ok(())
    }
}

} // verus!
