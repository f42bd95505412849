//! Channel readings as points of a time series.

use crate::client::pairs;
use crate::codec::channel_line::{
    channel_views, Channel, ChannelView, DownstreamChannel, Modulation, UpstreamChannel,
    UpstreamChannelView,
};
use crate::payloads::s33::GetMultipleHNAPsMetricsResponse;
use crate::text::{decimal_digits, decimal_of, string_of};
use vstd::prelude::*;

verus! {

/// The value of a field of a point.
#[derive(Debug, Clone, PartialEq, Eq)]
pub enum FieldValue {
    Boolean(bool),
    UNumber(u64),
    /// A decimal fraction, kept as written: digits with at most one `.`
    /// among them.
    Decimal(String),
    Str(String),
}

/// One point: the measurement it belongs to, its tags and its fields.
#[derive(Debug, Clone, PartialEq, Eq)]
pub struct Point {
    pub measurement: String,
    pub tags: Vec<(String, String)>,
    pub fields: Vec<(String, FieldValue)>,
}

/// The value of a field as a mathematical value.
pub enum FieldView {
    Boolean(bool),
    UNumber(u64),
    Decimal(Seq<char>),
    Str(Seq<char>),
}

/// A point as a mathematical value.
pub struct PointView {
    pub measurement: Seq<char>,
    pub tags: Seq<(Seq<char>, Seq<char>)>,
    pub fields: Seq<(Seq<char>, FieldView)>,
}

impl View for FieldValue {
    type V = FieldView;

    open spec fn view(&self) -> FieldView {
        match self {
            FieldValue::Boolean(b) => FieldView::Boolean(*b),
            FieldValue::UNumber(n) => FieldView::UNumber(*n),
            FieldValue::Decimal(text) => FieldView::Decimal(text@),
            FieldValue::Str(text) => FieldView::Str(text@),
        }
    }
}

impl View for Point {
    type V = PointView;

    open spec fn view(&self) -> PointView {
        PointView {
            measurement: self.measurement@,
            tags: pairs(self.tags@),
            fields: Seq::new(self.fields@.len(), |i: int| (self.fields@[i].0@, self.fields@[i].1@)),
        }
    }
}

/// The values of a sequence of points.
pub open spec fn point_views(points: Seq<Point>) -> Seq<PointView> {
    Seq::new(points.len(), |i: int| points[i]@)
}

/// The tags of a channel: its number in decimal and the name of its
/// modulation.
pub open spec fn channel_tags(channel_id: u8, modulation: Modulation) -> Seq<(Seq<char>, Seq<char>)> {
    seq![("channel_id"@, decimal_digits(channel_id as nat)), ("modulation"@, modulation.name())]
}

/// The point of a downstream channel.
pub open spec fn downstream_point(c: DownstreamChannel) -> PointView {
    PointView {
        measurement: "modem_downstream_channel"@,
        tags: channel_tags(c.channel_id, c.modulation),
        fields: seq![
            ("lock_status"@, FieldView::Boolean(c.lock_status)),
            ("frequency"@, FieldView::UNumber(c.frequency as u64)),
            ("power"@, FieldView::UNumber(c.power as u64)),
            ("snr"@, FieldView::UNumber(c.snr as u64)),
            ("corrected"@, FieldView::UNumber(c.corrected as u64)),
            ("uncorrectables"@, FieldView::UNumber(c.uncorrectables as u64)),
        ],
    }
}

/// The point of an upstream channel.
pub open spec fn upstream_point(c: UpstreamChannelView) -> PointView {
    PointView {
        measurement: "modem_upstream_channel"@,
        tags: channel_tags(c.channel_id, c.modulation),
        fields: seq![
            ("lock_status"@, FieldView::Boolean(c.lock_status)),
            ("frequency"@, FieldView::UNumber(c.frequency as u64)),
            ("width"@, FieldView::UNumber(c.width as u64)),
            ("power"@, FieldView::Decimal(c.power)),
        ],
    }
}

/// The point of a channel.
pub open spec fn channel_point(c: ChannelView) -> PointView {
    match c {
        ChannelView::Downstream(d) => downstream_point(d),
        ChannelView::Upstream(u) => upstream_point(u),
    }
}

/// The points of a sequence of channels.
pub open spec fn channel_points(channels: Seq<ChannelView>) -> Seq<PointView> {
    Seq::new(channels.len(), |i: int| channel_point(channels[i]))
}

fn tags_of(channel_id: u8, modulation: Modulation) -> (tags: Vec<(String, String)>)
    ensures
        pairs(tags@) == channel_tags(channel_id, modulation),
{
    let mut tags: Vec<(String, String)> = Vec::new();
    tags.push((String::from_str("channel_id"), string_of(&decimal_of(channel_id as u128))));
    tags.push((String::from_str("modulation"), modulation.to_string()));
    assert(pairs(tags@) =~= channel_tags(channel_id, modulation));
    tags
}

fn number(name: &str, value: u64) -> (field: (String, FieldValue))
    ensures
        field.0@ == name@,
        field.1@ == FieldView::UNumber(value),
{
    (String::from_str(name), FieldValue::UNumber(value))
}

impl Modulation {
    /// The modulation as the value of a field.
    pub fn field_data(&self) -> (value: FieldValue)
        ensures
            value@ == FieldView::Str(self.name()),
    {
        FieldValue::Str(self.to_string())
    }
}

impl DownstreamChannel {
    /// The reading as a point of `modem_downstream_channel`.
    pub fn to_point(&self) -> (point: Point)
        ensures
            point@ == downstream_point(*self),
    {
        let mut fields: Vec<(String, FieldValue)> = Vec::new();
        fields.push((String::from_str("lock_status"), FieldValue::Boolean(self.lock_status)));
        fields.push(number("frequency", self.frequency as u64));
        fields.push(number("power", self.power as u64));
        fields.push(number("snr", self.snr as u64));
        fields.push(number("corrected", self.corrected as u64));
        fields.push(number("uncorrectables", self.uncorrectables as u64));
        let point = Point {
            measurement: String::from_str("modem_downstream_channel"),
            tags: tags_of(self.channel_id, self.modulation),
            fields,
        };
        assert(point@.fields =~= downstream_point(*self).fields);
        point
    }
}

impl UpstreamChannel {
    /// The reading as a point of `modem_upstream_channel`.
    pub fn to_point(&self) -> (point: Point)
        ensures
            point@ == upstream_point(self@),
    {
        let mut fields: Vec<(String, FieldValue)> = Vec::new();
        fields.push((String::from_str("lock_status"), FieldValue::Boolean(self.lock_status)));
        fields.push(number("frequency", self.frequency as u64));
        fields.push(number("width", self.width as u64));
        fields.push((String::from_str("power"), FieldValue::Decimal(self.power.clone())));
        let point = Point {
            measurement: String::from_str("modem_upstream_channel"),
            tags: tags_of(self.channel_id, self.modulation),
            fields,
        };
        assert(point@.fields =~= upstream_point(self@).fields);
        point
    }
}

impl Channel {
    /// The reading as a point of its measurement.
    pub fn to_point(&self) -> (point: Point)
        ensures
            point@ == channel_point(self@),
    {
        match self {
            Channel::Downstream(c) => c.to_point(),
            Channel::Upstream(c) => c.to_point(),
        }
    }
}

fn push_points(channels: &Vec<Channel>, points: &mut Vec<Point>)
    ensures
        point_views(final(points)@) == point_views(old(points)@) + channel_points(
            channel_views(channels@),
        ),
{
    let mut i: usize = 0;
    assert(point_views(points@) =~= point_views(old(points)@) + channel_points(
        channel_views(channels@),
    ).take(0));
    while i < channels.len()
        invariant
            i <= channels.len(),
            point_views(points@) == point_views(old(points)@) + channel_points(
                channel_views(channels@),
            ).take(i as int),
        decreases channels.len() - i,
    {
        let ghost before = point_views(points@);
        let point = channels[i].to_point();
        points.push(point);
        assert(point_views(points@) =~= before.push(point@));
        assert(channel_points(channel_views(channels@)).take(i + 1) =~= channel_points(
            channel_views(channels@),
        ).take(i as int).push(point@));
        i += 1;
    }
    assert(channel_points(channel_views(channels@)).take(channels.len() as int)
        =~= channel_points(channel_views(channels@)));
}

/// The points of one poll: one for each row of the downstream table, then
/// one for each row of the upstream table.
pub fn metrics_to_telegraf(metrics: &GetMultipleHNAPsMetricsResponse) -> (points: Vec<Point>)
    ensures
        point_views(points@) == channel_points(
            channel_views(
                metrics.get_customer_status_downstream_channel_info_response.customer_conn_downstream_channel@,
            ),
        ) + channel_points(
            channel_views(
                metrics.get_customer_status_upstream_channel_info_response.customer_conn_upstream_channel@,
            ),
        ),
{
    let mut points: Vec<Point> = Vec::new();
    assert(point_views(points@) =~= Seq::empty());
    push_points(
        &metrics.get_customer_status_downstream_channel_info_response.customer_conn_downstream_channel,
        &mut points,
    );
    push_points(
        &metrics.get_customer_status_upstream_channel_info_response.customer_conn_upstream_channel,
        &mut points,
    );
    points
}

} // verus!
