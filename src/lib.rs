//! Session-scoped persistence for a shopping-assistant client: taste
//! profiles, conversations, a TTL-bound insight cache, cart-session pointers
//! and wishlists, each with its upsert and conflict rules stated and proved.
//! Each store owns its rows; an application holds all of them behind one
//! handle that it passes to its request handlers.

mod ambient;
pub mod cart;
pub mod conversation;
pub mod document;
pub mod error;
pub mod insight;
pub mod keyed;
pub mod profile;
pub mod wishlist;
