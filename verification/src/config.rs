//! The configuration, and what makes one valid.
use crate::numbers;
use crate::numbers::{push_decimal, RISK_ONE};
use vstd::prelude::*;

verus! {

/// The whole configuration.
#[derive(Debug)]
pub struct Config {
    pub host: HostConfig,
    pub risk: RiskConfig,
    pub chunking: ChunkingConfig,
    pub quarantine: QuarantineConfig,
}

/// Settings of the host process.
#[derive(Debug)]
pub struct HostConfig {
    pub log_level: String,
}

/// The scores that separate the three decisions.
#[derive(Debug, Clone, Copy)]
pub struct RiskConfig {
    /// A file that reaches this score is not released.
    pub sandbox_threshold: i64,
    /// A file that reaches this score is a confirmed detection.
    pub block_threshold: i64,
}

/// How a download is read, and how long it may take.
#[derive(Debug, Clone, Copy)]
pub struct ChunkingConfig {
    pub chunk_size: usize,
    pub ring_buffer_chunks: usize,
    pub per_chunk_timeout_secs: u64,
    pub total_transfer_timeout_secs: u64,
    /// Hard ceiling on a single download, enforced as bytes arrive.
    pub max_download_bytes: u64,
    /// Largest file that is loaded into memory for the whole-file scan.
    pub max_whole_file_scan_bytes: u64,
}

/// Where downloads wait for their verdict.
#[derive(Debug)]
pub struct QuarantineConfig {
    pub subdir: String,
    pub keep_flagged_samples: bool,
}

/// The limit of the whole-file scan where none is configured: 64 MiB.
pub fn default_max_whole_file_scan_bytes() -> (r: u64)
    ensures
        r == 64 * 1024 * 1024,
{
    67_108_864
}

impl ChunkingConfig {
    /// The longest time without new bytes, in seconds.
    pub fn per_chunk_timeout(&self) -> (r: u64)
        ensures
            r == self.per_chunk_timeout_secs,
    {
        self.per_chunk_timeout_secs
    }

    /// The longest time a whole transfer may take, in seconds.
    pub fn total_transfer_timeout(&self) -> (r: u64)
        ensures
            r == self.total_transfer_timeout_secs,
    {
        self.total_transfer_timeout_secs
    }
}

/// Why a configuration is refused.
#[derive(Debug, Clone, Copy, PartialEq, Eq, Structural)]
pub enum ConfigError {
    /// The lower threshold is no risk above zero.
    SandboxThreshold { value: i64 },
    /// The upper threshold is no risk above zero.
    BlockThreshold { value: i64 },
    /// The lower threshold is not below the upper one.
    ThresholdOrder { sandbox: i64, block: i64 },
    /// Chunks hold nothing.
    ChunkSize,
    /// The ring buffer holds nothing.
    RingBufferChunks,
    /// Every download would be too large.
    MaxDownloadBytes,
    /// No download could complete.
    MaxDownloadBelowChunk { max_download_bytes: u64, chunk_size: u64 },
}

/// A threshold that a configuration may hold.
pub open spec fn proper_threshold(t: i64) -> bool {
    0 < t <= RISK_ONE
}

/// The first thing that is wrong with a configuration.
pub open spec fn first_fault(risk: RiskConfig, chunking: ChunkingConfig) -> Option<ConfigError> {
    if !proper_threshold(risk.sandbox_threshold) {
        Some(ConfigError::SandboxThreshold { value: risk.sandbox_threshold })
    } else if !proper_threshold(risk.block_threshold) {
        Some(ConfigError::BlockThreshold { value: risk.block_threshold })
    } else if risk.sandbox_threshold >= risk.block_threshold {
        Some(
            ConfigError::ThresholdOrder {
                sandbox: risk.sandbox_threshold,
                block: risk.block_threshold,
            },
        )
    } else if chunking.chunk_size == 0 {
        Some(ConfigError::ChunkSize)
    } else if chunking.ring_buffer_chunks == 0 {
        Some(ConfigError::RingBufferChunks)
    } else if chunking.max_download_bytes == 0 {
        Some(ConfigError::MaxDownloadBytes)
    } else if chunking.max_download_bytes < chunking.chunk_size {
        Some(
            ConfigError::MaxDownloadBelowChunk {
                max_download_bytes: chunking.max_download_bytes,
                chunk_size: chunking.chunk_size as u64,
            },
        )
    } else {
        None
    }
}

impl Config {
    /// Refuses a configuration with which nothing could be decided or
    /// downloaded.
    pub fn validate(&self) -> (r: Result<(), ConfigError>)
        ensures
            r == (match first_fault(self.risk, self.chunking) {
                Some(e) => Err(e),
                None => Ok(()),
            }),
    {
        let risk: RiskConfig = self.risk;
        let chunking: ChunkingConfig = self.chunking;
        if risk.sandbox_threshold <= 0 || risk.sandbox_threshold > RISK_ONE {
            return Err(ConfigError::SandboxThreshold { value: risk.sandbox_threshold });
        }
        if risk.block_threshold <= 0 || risk.block_threshold > RISK_ONE {
            return Err(ConfigError::BlockThreshold { value: risk.block_threshold });
        }
        if risk.sandbox_threshold >= risk.block_threshold {
            return Err(
                ConfigError::ThresholdOrder {
                    sandbox: risk.sandbox_threshold,
                    block: risk.block_threshold,
                },
            );
        }
        if chunking.chunk_size == 0 {
            return Err(ConfigError::ChunkSize);
        }
        if chunking.ring_buffer_chunks == 0 {
            return Err(ConfigError::RingBufferChunks);
        }
        if chunking.max_download_bytes == 0 {
            return Err(ConfigError::MaxDownloadBytes);
        }
        if chunking.max_download_bytes < chunking.chunk_size as u64 {
            return Err(
                ConfigError::MaxDownloadBelowChunk {
                    max_download_bytes: chunking.max_download_bytes,
                    chunk_size: chunking.chunk_size as u64,
                },
            );
        }
        Ok(())
    }
}

/// A number below 10,000 as the digits behind a decimal point, without zeros
/// at the end.
pub open spec fn fraction_digits(f: nat, width: nat) -> Seq<char>
    decreases width,
{
    if width == 0 || f == 0 {
        Seq::empty()
    } else {
        seq![numbers::digit(f / ten_to((width - 1) as nat) % 10)] + fraction_digits(
            f % ten_to((width - 1) as nat),
            (width - 1) as nat,
        )
    }
}

/// The powers of ten below 10,000.
pub open spec fn ten_to(n: nat) -> nat {
    if n == 0 {
        1
    } else if n == 1 {
        10
    } else if n == 2 {
        100
    } else {
        1_000
    }
}

/// A threshold in plain decimal notation.
pub open spec fn threshold_text(t: int) -> Seq<char> {
    let size = if t < 0 {
        -t
    } else {
        t
    };
    let whole = (size / 10_000) as nat;
    let part = (size % 10_000) as nat;
    (if t < 0 {
        "-"@
    } else {
        Seq::empty()
    }) + numbers::decimal(whole) + (if part == 0 {
        Seq::empty()
    } else {
        "."@ + fraction_digits(part, 4)
    })
}

/// The words for a fault.
pub open spec fn fault_text(e: ConfigError) -> Seq<char> {
    match e {
        ConfigError::SandboxThreshold { value } =>
            "risk.sandbox_threshold must be in (0.0, 1.0], got "@ + threshold_text(value as int),
        ConfigError::BlockThreshold { value } =>
            "risk.block_threshold must be in (0.0, 1.0], got "@ + threshold_text(value as int),
        ConfigError::ThresholdOrder { sandbox, block } => "risk.sandbox_threshold ("@
            + threshold_text(sandbox as int) + ") must be < risk.block_threshold ("@
            + threshold_text(block as int) + ")"@,
        ConfigError::ChunkSize => "chunking.chunk_size must be > 0"@,
        ConfigError::RingBufferChunks => "chunking.ring_buffer_chunks must be > 0"@,
        ConfigError::MaxDownloadBytes => "chunking.max_download_bytes must be > 0"@,
        ConfigError::MaxDownloadBelowChunk { max_download_bytes, chunk_size } =>
            "chunking.max_download_bytes ("@ + numbers::decimal(max_download_bytes as nat)
            + ") must be >= chunking.chunk_size ("@ + numbers::decimal(chunk_size as nat)
            + ") — otherwise no download can ever complete"@,
    }
}

/// Appends the digits behind a decimal point.
fn push_fraction(out: &mut String, f: u64, width: u8)
    requires
        width <= 4,
        f < 10_000,
    ensures
        final(out)@ == old(out)@ + fraction_digits(f as nat, width as nat),
    decreases width,
{
    if width > 0 && f > 0 {
        let place: u64 = if width == 1 {
            1
        } else if width == 2 {
            10
        } else if width == 3 {
            100
        } else {
            1_000
        };
        let d: u8 = (f / place % 10) as u8;
        out.push((48 + d) as char);
        push_fraction(out, f % place, width - 1);
    }
    assert(out@ =~= old(out)@ + fraction_digits(f as nat, width as nat));
}

/// Appends a threshold in plain decimal notation.
pub fn push_threshold(out: &mut String, t: i64)
    ensures
        final(out)@ == old(out)@ + threshold_text(t as int),
{
    let size: u64 = if t < 0 {
        out.append("-");
        let wide: i128 = t as i128;
        (-wide) as u64
    } else {
        t as u64
    };
    push_decimal(out, size / 10_000);
    let part: u64 = size % 10_000;
    if part > 0 {
        out.append(".");
        push_fraction(out, part, 4);
    }
    assert(out@ =~= old(out)@ + threshold_text(t as int));
}

impl ConfigError {
    /// The words for this fault.
    pub fn message(&self) -> (r: String)
        ensures
            r@ == fault_text(*self),
    {
        match *self {
            ConfigError::SandboxThreshold { value } => {
                let mut out: String =
                    "risk.sandbox_threshold must be in (0.0, 1.0], got ".to_string();
                push_threshold(&mut out, value);
                out
            },
            ConfigError::BlockThreshold { value } => {
                let mut out: String =
                    "risk.block_threshold must be in (0.0, 1.0], got ".to_string();
                push_threshold(&mut out, value);
                out
            },
            ConfigError::ThresholdOrder { sandbox, block } => {
                let mut out: String = "risk.sandbox_threshold (".to_string();
                push_threshold(&mut out, sandbox);
                out.append(") must be < risk.block_threshold (");
                push_threshold(&mut out, block);
                out.append(")");
                out
            },
            ConfigError::ChunkSize => "chunking.chunk_size must be > 0".to_string(),
            ConfigError::RingBufferChunks => "chunking.ring_buffer_chunks must be > 0".to_string(),
            ConfigError::MaxDownloadBytes => "chunking.max_download_bytes must be > 0".to_string(),
            ConfigError::MaxDownloadBelowChunk { max_download_bytes, chunk_size } => {
                let mut out: String = "chunking.max_download_bytes (".to_string();
                push_decimal(&mut out, max_download_bytes);
                out.append(") must be >= chunking.chunk_size (");
                push_decimal(&mut out, chunk_size);
                out.append(") — otherwise no download can ever complete");
                out
            },
        }
    }
}

// ---------------------------------------------------------------------------
// Laws
// ---------------------------------------------------------------------------

/// A configuration is accepted exactly where both thresholds are risks above
/// nothing, the lower one below the upper one, chunks and their buffer hold
/// something, and a download may be as large as a chunk.
pub proof fn law_what_a_configuration_must_hold(risk: RiskConfig, chunking: ChunkingConfig)
    ensures
        first_fault(risk, chunking) is None <==> {
            &&& 0 < risk.sandbox_threshold < risk.block_threshold <= 10_000
            &&& chunking.chunk_size > 0
            &&& chunking.ring_buffer_chunks > 0
            &&& chunking.max_download_bytes >= chunking.chunk_size
        },
{
}

/// A fault that is reported is there, with the values that make it one.
pub proof fn law_a_reported_fault_is_there(risk: RiskConfig, chunking: ChunkingConfig)
    ensures
        match first_fault(risk, chunking) {
            Some(ConfigError::SandboxThreshold { value }) => value == risk.sandbox_threshold && !(0
                < value <= 10_000),
            Some(ConfigError::BlockThreshold { value }) => value == risk.block_threshold && !(0
                < value <= 10_000),
            Some(ConfigError::ThresholdOrder { sandbox, block }) => sandbox
                == risk.sandbox_threshold && block == risk.block_threshold && sandbox >= block,
            Some(ConfigError::ChunkSize) => chunking.chunk_size == 0,
            Some(ConfigError::RingBufferChunks) => chunking.ring_buffer_chunks == 0,
            Some(ConfigError::MaxDownloadBytes) => chunking.max_download_bytes == 0,
            Some(ConfigError::MaxDownloadBelowChunk { max_download_bytes, chunk_size }) =>
                max_download_bytes == chunking.max_download_bytes && chunk_size
                == chunking.chunk_size && max_download_bytes < chunk_size,
            None => true,
        },
{
}

/// Of several faults the first is reported: the thresholds before the chunks,
/// and each by itself before what it is compared with.
pub proof fn law_the_first_fault_is_reported(risk: RiskConfig, chunking: ChunkingConfig)
    ensures
        !(0 < risk.sandbox_threshold <= 10_000) ==> (first_fault(risk, chunking) matches Some(e)
            && e is SandboxThreshold),
        0 < risk.sandbox_threshold <= 10_000 && !(0 < risk.block_threshold <= 10_000) ==> (
        first_fault(risk, chunking) matches Some(e) && e is BlockThreshold),
        0 < risk.block_threshold <= risk.sandbox_threshold <= 10_000 ==> (first_fault(
            risk,
            chunking,
        ) matches Some(e) && e is ThresholdOrder),
        0 < risk.sandbox_threshold < risk.block_threshold <= 10_000 && chunking.chunk_size == 0
            ==> first_fault(risk, chunking) == Some(ConfigError::ChunkSize),
        0 < risk.sandbox_threshold < risk.block_threshold <= 10_000 && chunking.chunk_size > 0
            && chunking.ring_buffer_chunks == 0 ==> first_fault(risk, chunking) == Some(
            ConfigError::RingBufferChunks,
        ),
{
}

} // verus!
