//! Text front end of the Kokoro speech model: conversion of espeak IPA into
//! Kokoro phoneme symbols, longest-match tokenization against the Kokoro
//! vocabulary, voice-configuration checks and the command-line decisions that
//! drive a synthesis request.

pub mod error;
pub mod json;
pub mod chars;
pub mod vocab;
pub mod phonemize;
pub mod config;
pub mod cli;
