pub mod stream_util;
pub mod system_prompt;
pub mod thinking_filter;
pub mod tool_call_parser;
pub mod turn;
