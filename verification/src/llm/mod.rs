//! Language models.
pub mod attention;
pub mod config;
pub mod config_laws;
pub mod device;
pub mod device_laws;
pub mod device_meaning;
pub mod generate;
pub mod generate_laws;
pub mod kv_codes;
pub mod kvcache;
pub mod load;
pub mod load_laws;
pub mod matmul;
pub mod moe;
pub mod pass_laws;
pub mod pass_meaning;
pub mod pass_result;
pub mod plan;
pub mod plan_laws;
pub mod pool;
pub mod rows;
pub mod shape;
pub mod tensor;
pub mod timers;
pub mod weight;
