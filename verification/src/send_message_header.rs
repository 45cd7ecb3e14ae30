//! Request headers carried by a send-message command, in their two wire
//! shapes: the long-named form and the abbreviated form used by the
//! compact protocol, with the conversion from the abbreviated form back
//! to the long-named one.

use vstd::prelude::*;

verus! {

/// Send-message request header with full field names.
#[derive(Debug, Clone)]
pub struct SendMessageRequestHeader {
    pub ns: Option<String>,
    pub nsd: Option<bool>,
    pub bname: Option<String>,
    pub oway: Option<bool>,
    pub lo: Option<bool>,
    pub producer_group: String,
    pub topic: String,
    pub default_topic: String,
    pub default_topic_queue_nums: i32,
    pub queue_id: i32,
    pub sys_flag: i32,
    pub born_timestamp: i64,
    pub flag: i32,
    pub properties: Option<String>,
    pub reconsume_times: Option<i32>,
    pub unit_mode: Option<bool>,
    pub batch: Option<bool>,
    pub max_reconsume_times: Option<i32>,
}

impl SendMessageRequestHeader {
    pub fn new(
        producer_group: String,
        topic: String,
        default_topic: String,
        default_topic_queue_nums: i32,
        queue_id: i32,
        sys_flag: i32,
        born_timestamp: i64,
        flag: i32,
    ) -> (r: Self)
        ensures
            r.producer_group == producer_group,
            r.topic == topic,
            r.default_topic == default_topic,
            r.default_topic_queue_nums == default_topic_queue_nums,
            r.queue_id == queue_id,
            r.sys_flag == sys_flag,
            r.born_timestamp == born_timestamp,
            r.flag == flag,
            r.ns is None,
            r.nsd is None,
            r.bname is None,
            r.oway is None,
            r.lo is None,
            r.properties is None,
            r.reconsume_times is None,
            r.unit_mode is None,
            r.batch is None,
            r.max_reconsume_times is None,
    {
        SendMessageRequestHeader {
            ns: None,
            nsd: None,
            bname: None,
            oway: None,
            lo: None,
            producer_group,
            topic,
            default_topic,
            default_topic_queue_nums,
            queue_id,
            sys_flag,
            born_timestamp,
            flag,
            properties: None,
            reconsume_times: None,
            unit_mode: None,
            batch: None,
            max_reconsume_times: None,
        }
    }
}

impl SendMessageRequestHeader {
    /// A copy whose every field equals this header's.
    pub fn clone_header(&self) -> (r: Self)
        ensures
            r == *self,
    {
        SendMessageRequestHeader {
            ns: clone_opt_string(&self.ns),
            nsd: self.nsd,
            bname: clone_opt_string(&self.bname),
            oway: self.oway,
            lo: self.lo,
            producer_group: self.producer_group.clone(),
            topic: self.topic.clone(),
            default_topic: self.default_topic.clone(),
            default_topic_queue_nums: self.default_topic_queue_nums,
            queue_id: self.queue_id,
            sys_flag: self.sys_flag,
            born_timestamp: self.born_timestamp,
            flag: self.flag,
            properties: clone_opt_string(&self.properties),
            reconsume_times: self.reconsume_times,
            unit_mode: self.unit_mode,
            batch: self.batch,
            max_reconsume_times: self.max_reconsume_times,
        }
    }
}

/// Send-message request header in the abbreviated (single-letter) wire form.
#[derive(Debug, Clone)]
pub struct SendMessageRequestHeaderV2 {
    pub ns: Option<String>,
    pub nsd: Option<bool>,
    pub bname: Option<String>,
    pub oway: Option<bool>,
    pub lo: Option<bool>,
    pub a: String,
    pub b: String,
    pub c: String,
    pub d: i32,
    pub e: i32,
    pub f: i32,
    pub g: i64,
    pub h: i32,
    pub i: Option<String>,
    pub j: Option<i32>,
    pub k: Option<bool>,
    pub l: Option<i32>,
    pub m: Option<bool>,
    pub n: Option<String>,
}

/// Relates an abbreviated header to the long-named header it stands for.
pub open spec fn v2_converts_to_v1(v2: SendMessageRequestHeaderV2, v1: SendMessageRequestHeader) -> bool {
    &&& v1.ns == v2.ns
    &&& v1.nsd == v2.nsd
    &&& v1.bname == v2.n
    &&& v1.oway == v2.oway
    &&& v1.lo == v2.lo
    &&& v1.producer_group == v2.a
    &&& v1.topic == v2.b
    &&& v1.default_topic == v2.c
    &&& v1.default_topic_queue_nums == v2.d
    &&& v1.queue_id == v2.e
    &&& v1.sys_flag == v2.f
    &&& v1.born_timestamp == v2.g
    &&& v1.flag == v2.h
    &&& v1.properties == v2.i
    &&& v1.reconsume_times == v2.j
    &&& v1.unit_mode == v2.k
    &&& v1.batch == v2.m
    &&& v1.max_reconsume_times == v2.l
}

impl SendMessageRequestHeaderV2 {
    pub fn new(a: String, b: String, c: String, d: i32, e: i32, f: i32, g: i64, h: i32) -> (r: Self)
        ensures
            r.a == a,
            r.b == b,
            r.c == c,
            r.d == d,
            r.e == e,
            r.f == f,
            r.g == g,
            r.h == h,
            r.ns is None,
            r.nsd is None,
            r.bname is None,
            r.oway is None,
            r.lo is None,
            r.i is None,
            r.j is None,
            r.k is None,
            r.l is None,
            r.m is None,
            r.n is None,
    {
        SendMessageRequestHeaderV2 {
            ns: None,
            nsd: None,
            bname: None,
            oway: None,
            lo: None,
            a,
            b,
            c,
            d,
            e,
            f,
            g,
            h,
            i: None,
            j: None,
            k: None,
            l: None,
            m: None,
            n: None,
        }
    }

    pub fn create_send_message_request_header_v1(&self) -> (r: SendMessageRequestHeader)
        ensures
            v2_converts_to_v1(*self, r),
    {
        SendMessageRequestHeader {
            ns: clone_opt_string(&self.ns),
            nsd: self.nsd,
            bname: clone_opt_string(&self.n),
            oway: self.oway,
            lo: self.lo,
            producer_group: self.a.clone(),
            topic: self.b.clone(),
            default_topic: self.c.clone(),
            default_topic_queue_nums: self.d,
            queue_id: self.e,
            sys_flag: self.f,
            born_timestamp: self.g,
            flag: self.h,
            properties: clone_opt_string(&self.i),
            reconsume_times: self.j,
            unit_mode: self.k,
            batch: self.m,
            max_reconsume_times: self.l,
        }
    }
}

impl SendMessageRequestHeaderV2 {
    /// A copy whose every field equals this header's.
    pub fn clone_header(&self) -> (r: Self)
        ensures
            r == *self,
    {
        SendMessageRequestHeaderV2 {
            ns: clone_opt_string(&self.ns),
            nsd: self.nsd,
            bname: clone_opt_string(&self.bname),
            oway: self.oway,
            lo: self.lo,
            a: self.a.clone(),
            b: self.b.clone(),
            c: self.c.clone(),
            d: self.d,
            e: self.e,
            f: self.f,
            g: self.g,
            h: self.h,
            i: clone_opt_string(&self.i),
            j: self.j,
            k: self.k,
            l: self.l,
            m: self.m,
            n: clone_opt_string(&self.n),
        }
    }
}

/// Copies an optional string, field for field.
fn clone_opt_string(s: &Option<String>) -> (r: Option<String>)
    ensures
        r == *s,
{
    match s {
        Some(v) => Some(v.clone()),
        None => None,
    }
}

} // verus!
