//! Delivery pricing: authorization rules, the country directory, rate tiers
//! and the resolvers that decide which company packages can carry a parcel
//! and at what price.

pub mod acl;
pub mod availability;
pub mod catalog;
pub mod controller;
pub mod countries;
pub mod errors;
pub mod models;
pub mod naming;
pub mod ordering;
pub mod products;
pub mod query;
pub mod rates;
pub mod resolver;
pub mod routes;
pub mod search;
pub mod services;
pub mod text;
pub mod tree;
