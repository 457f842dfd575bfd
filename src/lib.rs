//! A typed document model for HTML fragments: conversion from a parsed node
//! tree into blocks and inlines, and rendering back into canonical HTML.

pub mod convert;
pub mod doc;
pub mod dom;
pub mod render;
pub mod text;
