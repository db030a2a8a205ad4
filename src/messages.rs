//! Message schemas, each written as the fields of its wire form in order.
use vstd::prelude::*;
use crate::envelope::{Request, Response};
use crate::protocol::KafkaSerializable;
use crate::reader::Reader;
use crate::types::{ErrorKind, KafkaError};

verus! {

/// Asks for the metadata of the named topics, or of all topics where none is named.
#[derive(PartialEq, Eq, Debug)]
pub struct MetadataRequest {
    pub topic_names: Vec<String>,
}

impl KafkaSerializable for MetadataRequest {
    type Model = Seq<Seq<char>>;

    open spec fn model(&self) -> Seq<Seq<char>> {
        self.topic_names.model()
    }

    open spec fn valid(m: Seq<Seq<char>>) -> bool {
        <Vec<String>>::valid(m)
    }

    open spec fn wire(m: Seq<Seq<char>>) -> Seq<u8> {
        <Vec<String>>::wire(m)
    }

    open spec fn parse(input: Seq<u8>) -> Result<(Seq<Seq<char>>, int), ErrorKind> {
        <Vec<String>>::parse(input)
    }

    proof fn lemma_valid_len(m: Seq<Seq<char>>) {
    }

    proof fn lemma_parse_len(input: Seq<u8>) {
        <Vec<String>>::lemma_parse_len(input);
    }

    proof fn lemma_parse_extend(input: Seq<u8>, extra: Seq<u8>) {
        <Vec<String>>::lemma_parse_extend(input, extra);
    }

    proof fn lemma_round_trip(m: Seq<Seq<char>>, rest: Seq<u8>) {
        <Vec<String>>::lemma_round_trip(m, rest);
    }

    fn encode(&self, writer: &mut Vec<u8>) {
        self.topic_names.encode(writer);
    }

    fn decode(reader: &mut Reader) -> (r: Result<MetadataRequest, KafkaError>) {
        match <Vec<String>>::decode(reader) {
            Ok(topic_names) => Ok(MetadataRequest { topic_names }),
            Err(e) => Err(e),
        }
    }

    fn size(&self) -> (r: i32) {
        self.topic_names.size()
    }

    fn is_encodable(&self) -> (r: bool) {
        self.topic_names.is_encodable()
    }
}

impl Request for MetadataRequest {
    open spec fn spec_api_key() -> i16 {
        3
    }

    fn api_key(_marker: Option<MetadataRequest>) -> (r: i16) {
        3
    }
}

/// A broker of the cluster and where to reach it.
#[derive(PartialEq, Eq, Debug)]
pub struct Broker {
    pub node_id: i32,
    pub host: String,
    pub port: i32,
}

impl KafkaSerializable for Broker {
    type Model = (i32, (Seq<char>, i32));

    open spec fn model(&self) -> (i32, (Seq<char>, i32)) {
        (self.node_id, (self.host@, self.port))
    }

    open spec fn valid(m: (i32, (Seq<char>, i32))) -> bool {
        <(i32, (String, i32))>::valid(m)
    }

    open spec fn wire(m: (i32, (Seq<char>, i32))) -> Seq<u8> {
        <(i32, (String, i32))>::wire(m)
    }

    open spec fn parse(input: Seq<u8>) -> Result<((i32, (Seq<char>, i32)), int), ErrorKind> {
        <(i32, (String, i32))>::parse(input)
    }

    proof fn lemma_valid_len(m: (i32, (Seq<char>, i32))) {
    }

    proof fn lemma_parse_len(input: Seq<u8>) {
        <(i32, (String, i32))>::lemma_parse_len(input);
    }

    proof fn lemma_parse_extend(input: Seq<u8>, extra: Seq<u8>) {
        <(i32, (String, i32))>::lemma_parse_extend(input, extra);
    }

    proof fn lemma_round_trip(m: (i32, (Seq<char>, i32)), rest: Seq<u8>) {
        <(i32, (String, i32))>::lemma_round_trip(m, rest);
    }

    fn encode(&self, writer: &mut Vec<u8>) {
        self.node_id.encode(writer);
        self.host.encode(writer);
        self.port.encode(writer);
        assert(writer@ =~= old(writer)@ + Self::wire(self.model()));
    }

    fn decode(reader: &mut Reader) -> (r: Result<Broker, KafkaError>) {
        match <(i32, (String, i32))>::decode(reader) {
            Ok((node_id, (host, port))) => Ok(Broker { node_id, host, port }),
            Err(e) => Err(e),
        }
    }

    fn size(&self) -> (r: i32) {
        self.node_id.size() + self.host.size() + self.port.size()
    }

    fn is_encodable(&self) -> (r: bool) {
        self.host.is_encodable()
    }
}

/// The state of one partition of a topic: its leader, its replicas, and those of them
/// that are in sync.
#[derive(PartialEq, Eq, Debug)]
pub struct PartitionMetadata {
    pub error_code: i16,
    pub partition: i32,
    pub leader: i32,
    pub replicas: Vec<i32>,
    pub isr: Vec<i32>,
}

impl KafkaSerializable for PartitionMetadata {
    type Model = (i16, (i32, (i32, (Seq<i32>, Seq<i32>))));

    open spec fn model(&self) -> (i16, (i32, (i32, (Seq<i32>, Seq<i32>)))) {
        (self.error_code, (self.partition, (self.leader, (self.replicas.model(), self.isr.model()))))
    }

    open spec fn valid(m: (i16, (i32, (i32, (Seq<i32>, Seq<i32>))))) -> bool {
        <(i16, (i32, (i32, (Vec<i32>, Vec<i32>))))>::valid(m)
    }

    open spec fn wire(m: (i16, (i32, (i32, (Seq<i32>, Seq<i32>))))) -> Seq<u8> {
        <(i16, (i32, (i32, (Vec<i32>, Vec<i32>))))>::wire(m)
    }

    open spec fn parse(input: Seq<u8>) -> Result<((i16, (i32, (i32, (Seq<i32>, Seq<i32>)))), int), ErrorKind> {
        <(i16, (i32, (i32, (Vec<i32>, Vec<i32>))))>::parse(input)
    }

    proof fn lemma_valid_len(m: (i16, (i32, (i32, (Seq<i32>, Seq<i32>))))) {
    }

    proof fn lemma_parse_len(input: Seq<u8>) {
        <(i16, (i32, (i32, (Vec<i32>, Vec<i32>))))>::lemma_parse_len(input);
    }

    proof fn lemma_parse_extend(input: Seq<u8>, extra: Seq<u8>) {
        <(i16, (i32, (i32, (Vec<i32>, Vec<i32>))))>::lemma_parse_extend(input, extra);
    }

    proof fn lemma_round_trip(m: (i16, (i32, (i32, (Seq<i32>, Seq<i32>)))), rest: Seq<u8>) {
        <(i16, (i32, (i32, (Vec<i32>, Vec<i32>))))>::lemma_round_trip(m, rest);
    }

    fn encode(&self, writer: &mut Vec<u8>) {
        self.error_code.encode(writer);
        self.partition.encode(writer);
        self.leader.encode(writer);
        self.replicas.encode(writer);
        self.isr.encode(writer);
        assert(writer@ =~= old(writer)@ + Self::wire(self.model()));
    }

    fn decode(reader: &mut Reader) -> (r: Result<PartitionMetadata, KafkaError>) {
        match <(i16, (i32, (i32, (Vec<i32>, Vec<i32>))))>::decode(reader) {
            Ok((error_code, (partition, (leader, (replicas, isr))))) => Ok(
                PartitionMetadata { error_code, partition, leader, replicas, isr },
            ),
            Err(e) => Err(e),
        }
    }

    fn size(&self) -> (r: i32) {
        self.error_code.size() + self.partition.size() + self.leader.size() + self.replicas.size()
            + self.isr.size()
    }

    fn is_encodable(&self) -> (r: bool) {
        self.replicas.is_encodable() && self.isr.is_encodable() && 10 + self.replicas.size() as i64
            + self.isr.size() as i64 <= i32::MAX as i64
    }
}

/// The state of one topic and of each of its partitions.
#[derive(PartialEq, Eq, Debug)]
pub struct TopicMetadata {
    pub error_code: i16,
    pub name: String,
    pub partitions: Vec<PartitionMetadata>,
}

impl KafkaSerializable for TopicMetadata {
    type Model = (i16, (Seq<char>, Seq<<PartitionMetadata as KafkaSerializable>::Model>));

    open spec fn model(&self) -> Self::Model {
        (self.error_code, (self.name@, self.partitions.model()))
    }

    open spec fn valid(m: Self::Model) -> bool {
        <(i16, (String, Vec<PartitionMetadata>))>::valid(m)
    }

    open spec fn wire(m: Self::Model) -> Seq<u8> {
        <(i16, (String, Vec<PartitionMetadata>))>::wire(m)
    }

    open spec fn parse(input: Seq<u8>) -> Result<(Self::Model, int), ErrorKind> {
        <(i16, (String, Vec<PartitionMetadata>))>::parse(input)
    }

    proof fn lemma_valid_len(m: Self::Model) {
    }

    proof fn lemma_parse_len(input: Seq<u8>) {
        <(i16, (String, Vec<PartitionMetadata>))>::lemma_parse_len(input);
    }

    proof fn lemma_parse_extend(input: Seq<u8>, extra: Seq<u8>) {
        <(i16, (String, Vec<PartitionMetadata>))>::lemma_parse_extend(input, extra);
    }

    proof fn lemma_round_trip(m: Self::Model, rest: Seq<u8>) {
        <(i16, (String, Vec<PartitionMetadata>))>::lemma_round_trip(m, rest);
    }

    fn encode(&self, writer: &mut Vec<u8>) {
        self.error_code.encode(writer);
        self.name.encode(writer);
        self.partitions.encode(writer);
        assert(writer@ =~= old(writer)@ + Self::wire(self.model()));
    }

    fn decode(reader: &mut Reader) -> (r: Result<TopicMetadata, KafkaError>) {
        match <(i16, (String, Vec<PartitionMetadata>))>::decode(reader) {
            Ok((error_code, (name, partitions))) => Ok(TopicMetadata { error_code, name, partitions }),
            Err(e) => Err(e),
        }
    }

    fn size(&self) -> (r: i32) {
        self.error_code.size() + self.name.size() + self.partitions.size()
    }

    fn is_encodable(&self) -> (r: bool) {
        self.name.is_encodable() && self.partitions.is_encodable() && 2 + self.name.size() as i64
            + self.partitions.size() as i64 <= i32::MAX as i64
    }
}

/// The brokers of the cluster and the state of the topics asked for.
#[derive(PartialEq, Eq, Debug)]
pub struct MetadataResponse {
    pub brokers: Vec<Broker>,
    pub topics: Vec<TopicMetadata>,
}

impl KafkaSerializable for MetadataResponse {
    type Model = (
        Seq<<Broker as KafkaSerializable>::Model>,
        Seq<<TopicMetadata as KafkaSerializable>::Model>,
    );

    open spec fn model(&self) -> Self::Model {
        (self.brokers.model(), self.topics.model())
    }

    open spec fn valid(m: Self::Model) -> bool {
        <(Vec<Broker>, Vec<TopicMetadata>)>::valid(m)
    }

    open spec fn wire(m: Self::Model) -> Seq<u8> {
        <(Vec<Broker>, Vec<TopicMetadata>)>::wire(m)
    }

    open spec fn parse(input: Seq<u8>) -> Result<(Self::Model, int), ErrorKind> {
        <(Vec<Broker>, Vec<TopicMetadata>)>::parse(input)
    }

    proof fn lemma_valid_len(m: Self::Model) {
    }

    proof fn lemma_parse_len(input: Seq<u8>) {
        <(Vec<Broker>, Vec<TopicMetadata>)>::lemma_parse_len(input);
    }

    proof fn lemma_parse_extend(input: Seq<u8>, extra: Seq<u8>) {
        <(Vec<Broker>, Vec<TopicMetadata>)>::lemma_parse_extend(input, extra);
    }

    proof fn lemma_round_trip(m: Self::Model, rest: Seq<u8>) {
        <(Vec<Broker>, Vec<TopicMetadata>)>::lemma_round_trip(m, rest);
    }

    fn encode(&self, writer: &mut Vec<u8>) {
        self.brokers.encode(writer);
        self.topics.encode(writer);
        assert(writer@ =~= old(writer)@ + Self::wire(self.model()));
    }

    fn decode(reader: &mut Reader) -> (r: Result<MetadataResponse, KafkaError>) {
        match <(Vec<Broker>, Vec<TopicMetadata>)>::decode(reader) {
            Ok((brokers, topics)) => Ok(MetadataResponse { brokers, topics }),
            Err(e) => Err(e),
        }
    }

    fn size(&self) -> (r: i32) {
        self.brokers.size() + self.topics.size()
    }

    fn is_encodable(&self) -> (r: bool) {
        self.brokers.is_encodable() && self.topics.is_encodable() && self.brokers.size() as i64
            + self.topics.size() as i64 <= i32::MAX as i64
    }
}

impl Response for MetadataResponse {

}

} // verus!
