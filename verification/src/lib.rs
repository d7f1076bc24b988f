pub mod text;
pub mod css_source;
pub mod control;
pub mod paths;
pub mod bisect;
pub mod console;
pub mod capture;
pub mod content_addressed;
pub mod content_store;
pub mod contracts;
pub mod autonomous_contracts;
pub mod artifacts;
pub mod digest;
pub mod canonical_json;
pub mod attestation;
pub mod causal;
pub mod chromium;
pub mod a11y;
pub mod web_url;
pub mod evidence;
pub mod runtime_facts;
pub mod native_ax;
