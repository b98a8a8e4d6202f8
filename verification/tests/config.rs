//! Configurations.
use aegis_host::config::{
    default_max_whole_file_scan_bytes, push_threshold, ChunkingConfig, Config, ConfigError,
    HostConfig, QuarantineConfig, RiskConfig,
};

fn config() -> Config {
    Config {
        host: HostConfig { log_level: "info".to_string() },
        risk: RiskConfig { sandbox_threshold: 4_000, block_threshold: 8_500 },
        chunking: ChunkingConfig {
            chunk_size: 262_144,
            ring_buffer_chunks: 4,
            per_chunk_timeout_secs: 30,
            total_transfer_timeout_secs: 3_600,
            max_download_bytes: 8_589_934_592,
            max_whole_file_scan_bytes: default_max_whole_file_scan_bytes(),
        },
        quarantine: QuarantineConfig {
            subdir: "aegis_quarantine".to_string(),
            keep_flagged_samples: false,
        },
    }
}

#[test]
fn a_sound_configuration_is_accepted() {
    let c = config();
    assert_eq!(c.validate(), Ok(()));
    assert_eq!(c.chunking.per_chunk_timeout(), 30);
    assert_eq!(c.chunking.total_transfer_timeout(), 3_600);
    assert_eq!(c.chunking.max_whole_file_scan_bytes, 67_108_864);
}

#[test]
fn each_fault_is_named() {
    let mut c = config();
    c.risk.sandbox_threshold = 0;
    let e = c.validate().unwrap_err();
    assert_eq!(e, ConfigError::SandboxThreshold { value: 0 });
    assert_eq!(e.message(), "risk.sandbox_threshold must be in (0.0, 1.0], got 0");

    let mut c = config();
    c.risk.block_threshold = 10_001;
    let e = c.validate().unwrap_err();
    assert_eq!(e, ConfigError::BlockThreshold { value: 10_001 });
    assert_eq!(e.message(), "risk.block_threshold must be in (0.0, 1.0], got 1.0001");

    let mut c = config();
    c.risk.sandbox_threshold = 8_500;
    let e = c.validate().unwrap_err();
    assert_eq!(e, ConfigError::ThresholdOrder { sandbox: 8_500, block: 8_500 });
    assert_eq!(
        e.message(),
        "risk.sandbox_threshold (0.85) must be < risk.block_threshold (0.85)"
    );

    let mut c = config();
    c.chunking.chunk_size = 0;
    let e = c.validate().unwrap_err();
    assert_eq!(e, ConfigError::ChunkSize);
    assert_eq!(e.message(), "chunking.chunk_size must be > 0");

    let mut c = config();
    c.chunking.ring_buffer_chunks = 0;
    let e = c.validate().unwrap_err();
    assert_eq!(e, ConfigError::RingBufferChunks);
    assert_eq!(e.message(), "chunking.ring_buffer_chunks must be > 0");

    let mut c = config();
    c.chunking.max_download_bytes = 0;
    let e = c.validate().unwrap_err();
    assert_eq!(e, ConfigError::MaxDownloadBytes);
    assert_eq!(e.message(), "chunking.max_download_bytes must be > 0");

    let mut c = config();
    c.chunking.max_download_bytes = 1_000;
    let e = c.validate().unwrap_err();
    assert_eq!(
        e,
        ConfigError::MaxDownloadBelowChunk { max_download_bytes: 1_000, chunk_size: 262_144 }
    );
    assert_eq!(
        e.message(),
        "chunking.max_download_bytes (1000) must be >= chunking.chunk_size (262144) \u{2014} \
         otherwise no download can ever complete"
    );
}

#[test]
fn the_first_fault_is_the_one_reported() {
    let mut c = config();
    c.risk.sandbox_threshold = -5;
    c.chunking.chunk_size = 0;
    assert_eq!(c.validate(), Err(ConfigError::SandboxThreshold { value: -5 }));
}

#[test]
fn thresholds_are_written_without_needless_zeros() {
    for (t, words) in
        [(0, "0"), (10_000, "1"), (8_500, "0.85"), (4_000, "0.4"), (500, "0.05"), (-5, "-0.0005")]
    {
        let mut s = String::new();
        push_threshold(&mut s, t);
        assert_eq!(s, words);
    }
}
