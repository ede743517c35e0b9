//! Static configuration of models, workers and the scheduler.

use vstd::prelude::*;

verus! {

/// A served model and where its tokenizer lives.
#[derive(Debug, Clone)]
pub struct ModelConfig {
    pub model_id: String,
    pub tokenizer_path: Option<String>,
    pub chat_template: Option<String>,
}

/// Inference engine family behind a worker.
#[derive(Debug, Clone, Copy, PartialEq, Eq, Structural)]
pub enum EngineType {
    Sglang,
    Vllm,
    Dynamo,
}

/// Role of a worker in prefill/decode disaggregation.
#[derive(Debug, Clone, Copy, PartialEq, Eq, Structural)]
pub enum WorkerRole {
    Standard,
    Prefill,
    Decode,
}

impl Default for WorkerRole {
    fn default() -> (r: Self)
        ensures
            r == WorkerRole::Standard,
    {
        WorkerRole::Standard
    }
}

/// One inference worker of the cluster.
#[derive(Debug, Clone)]
pub struct WorkerConfig {
    pub id: String,
    pub model: String,
    pub engine: EngineType,
    pub http_endpoint: String,
    pub zmq_endpoint: Option<String>,
    pub tokenizer_path: Option<String>,
    pub role: WorkerRole,
    pub page_size: usize,
    pub weight: u32,
}

/// Scheduler tuning. The two score weights are fixed-point numbers in
/// thousandths: a weight of `1000` stands for `1.0`.
#[derive(Debug, Clone, Copy)]
pub struct SchedulerConfig {
    pub kv_weight_milli: u32,
    pub load_weight_milli: u32,
    pub max_active_requests_per_worker: usize,
    /// Use power-of-two-choices for the fallback tier when at least two
    /// workers are eligible.
    pub enable_p2c: bool,
}

/// Whole gateway configuration.
#[derive(Debug, Clone)]
pub struct CortexConfig {
    pub host: String,
    pub port: u16,
    pub models: Vec<ModelConfig>,
    pub workers: Vec<WorkerConfig>,
    pub scheduler: SchedulerConfig,
}

pub fn default_host() -> (r: String)
    ensures
        r@ == "0.0.0.0"@,
{
    "0.0.0.0".to_string()
}

pub fn default_port() -> (r: u16)
    ensures
        r == 8000,
{
    8000
}

pub fn default_page_size() -> (r: usize)
    ensures
        r == 16,
{
    16
}

pub fn default_weight() -> (r: u32)
    ensures
        r == 100,
{
    100
}

/// `1.0` in thousandths.
pub fn default_kv_weight_milli() -> (r: u32)
    ensures
        r == 1000,
{
    1000
}

/// `0.5` in thousandths.
pub fn default_load_weight_milli() -> (r: u32)
    ensures
        r == 500,
{
    500
}

pub fn default_high_watermark() -> (r: usize)
    ensures
        r == 64,
{
    64
}

pub fn default_enable_p2c() -> (r: bool)
    ensures
        r,
{
    true
}

impl Default for SchedulerConfig {
    fn default() -> (r: Self)
        ensures
            r.kv_weight_milli == 1000,
            r.load_weight_milli == 500,
            r.max_active_requests_per_worker == 64,
            r.enable_p2c,
    {
        SchedulerConfig {
            kv_weight_milli: default_kv_weight_milli(),
            load_weight_milli: default_load_weight_milli(),
            max_active_requests_per_worker: default_high_watermark(),
            enable_p2c: default_enable_p2c(),
        }
    }
}

impl Default for CortexConfig {
    fn default() -> (r: Self)
        ensures
            r.host@ == "0.0.0.0"@,
            r.port == 8000,
            r.models@.len() == 0,
            r.workers@.len() == 0,
            r.scheduler.kv_weight_milli == 1000,
            r.scheduler.load_weight_milli == 500,
            r.scheduler.max_active_requests_per_worker == 64,
            r.scheduler.enable_p2c,
    {
        CortexConfig {
            host: default_host(),
            port: default_port(),
            models: Vec::new(),
            workers: Vec::new(),
            scheduler: SchedulerConfig::default(),
        }
    }
}

} // verus!
