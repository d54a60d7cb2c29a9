//! Decision logic of a small task-routing swarm: a signaling registry that
//! pairs routers with the hosts of their cluster, the sessions in which
//! routers and agents meet through it, a router that balances queued tasks
//! over idle hosts, and the message framing that the router, the hosts and
//! the signaling server exchange.
pub mod text;
pub mod json;
pub mod wire;
pub mod ids;
pub mod strmap;
pub mod order;
pub mod signaling;
pub mod messages;
pub mod dispatch;
pub mod router;
pub mod mesh;
pub mod agent;
pub mod reading;
pub mod laws;
