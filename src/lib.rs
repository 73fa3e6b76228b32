//! FROST threshold Schnorr signatures over secp256k1: a proof of knowledge of a
//! secret key, distributed key generation built on Feldman verifiable secret
//! sharing, nonce precomputation, and one-round signing with aggregation.
pub mod aggregator;
pub mod hash;
pub mod keygen;
pub mod nizk;
pub mod point;
pub mod precomputation;
pub mod scalar;
pub mod signature;
pub mod sorting;

pub use aggregator::SignatureAggregator;
pub use keygen::create_participant;
pub use keygen::DistributedKeyGeneration;
pub use keygen::FrostInfo;
pub use keygen::GroupKey;
pub use keygen::IndividualPublicKey;
pub use keygen::Participant;
pub use keygen::SecretKey as IndividualSecretKey;
pub use precomputation::generate_commitment_share_lists;
pub use signature::compute_message_hash;
pub use signature::ThresholdSignature;
