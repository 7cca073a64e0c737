//! Charts of the requests to each model.
use crate::order;
use crate::style::Color;
use crate::text;
use vstd::prelude::*;

verus! {

/// A slice of a chart.
#[derive(Debug)]
pub struct Slice {
    pub label: String,
    pub count: u64,
    pub color: Color,
}

#[verifier::ext_equal]
pub struct SliceView {
    pub label: Seq<char>,
    pub count: u64,
    pub color: Color,
}

impl View for Slice {
    type V = SliceView;

    open spec fn view(&self) -> SliceView {
        SliceView { label: self.label@, count: self.count, color: self.color }
    }
}

/// A chart of the requests to each model.
#[derive(Debug)]
pub struct Pie {
    pub title: String,
    /// The slices; none where there is nothing to show.
    pub slices: Option<Vec<Slice>>,
}

#[verifier::ext_equal]
pub struct PieView {
    pub title: Seq<char>,
    pub slices: Option<Seq<SliceView>>,
}

/// What several slices are.
pub open spec fn slice_views(slices: Seq<Slice>) -> Seq<SliceView> {
    slices.map_values(|s: Slice| s@)
}

impl View for Pie {
    type V = PieView;

    open spec fn view(&self) -> PieView {
        PieView {
            title: self.title@,
            slices: match self.slices {
                Some(slices) => Some(slice_views(slices@)),
                None => None,
            },
        }
    }
}

/// The colors of the slices, which repeat after the eighth.
pub open spec fn palette(i: int) -> Color {
    let k = i % 8;
    if k == 0 {
        Color::Cyan
    } else if k == 1 {
        Color::Green
    } else if k == 2 {
        Color::Yellow
    } else if k == 3 {
        Color::Magenta
    } else if k == 4 {
        Color::LightBlue
    } else if k == 5 {
        Color::LightGreen
    } else if k == 6 {
        Color::LightYellow
    } else {
        Color::LightMagenta
    }
}

pub fn palette_color(i: usize) -> (r: Color)
    ensures
        r == palette(i as int),
{
    let k: usize = i % 8;
    if k == 0 {
        Color::Cyan
    } else if k == 1 {
        Color::Green
    } else if k == 2 {
        Color::Yellow
    } else if k == 3 {
        Color::Magenta
    } else if k == 4 {
        Color::LightBlue
    } else if k == 5 {
        Color::LightGreen
    } else if k == 6 {
        Color::LightYellow
    } else {
        Color::LightMagenta
    }
}

/// Whether a list of models has any request.
pub open spec fn has_requests(models: Seq<(Seq<char>, u64)>) -> bool {
    exists|i: int| 0 <= i < models.len() && (#[trigger] models[i]).1 != 0
}

/// One slice for each model.
pub open spec fn pie_slices(models: Seq<(Seq<char>, u64)>) -> Seq<SliceView> {
    Seq::new(
        models.len(),
        |i: int|
            SliceView {
                label: models[i].0 + " · "@ + text::decimal(models[i].1 as nat),
                count: models[i].1,
                color: palette(i),
            },
    )
}

/// The chart of the requests to each model: nothing to show where there is no request.
pub open spec fn pie_view(models: Seq<(Seq<char>, u64)>, title: Seq<char>) -> PieView {
    PieView {
        title,
        slices: if has_requests(models) {
            Some(pie_slices(models))
        } else {
            None
        },
    }
}

/// The chart of the requests to each model.
pub fn render_pie(models: &Vec<(String, u64)>, title: String) -> (r: Pie)
    ensures
        r@ == pie_view(order::pairs(models@), title@),
{
    let ghost listed = order::pairs(models@);
    let mut any: bool = false;
    for i in 0..models.len()
        invariant
            listed == order::pairs(models@),
            any <==> exists|k: int| 0 <= k < i && (#[trigger] listed[k]).1 != 0,
    {
        assert(listed[i as int].1 == models@[i as int].1);
        if models[i].1 != 0 {
            any = true;
        }
    }
    if !any {
        return Pie { title, slices: None };
    }
    let ghost all = pie_slices(listed);
    let mut slices: Vec<Slice> = Vec::new();
    for i in 0..models.len()
        invariant
            listed == order::pairs(models@),
            all == pie_slices(listed),
            slice_views(slices@) == all.take(i as int),
    {
        let ghost was = slices@;
        let count = text::to_decimal(models[i].1 as u128);
        let slice = Slice {
            label: text::enclosed(models[i].0.as_str(), " · ", count.as_str()),
            count: models[i].1,
            color: palette_color(i),
        };
        slices.push(slice);
        assert(slice@ == all[i as int]);
        assert(slice_views(slices@) =~= slice_views(was).push(all[i as int]));
        assert(all.take(i + 1) =~= all.take(i as int).push(all[i as int]));
    }
    assert(all.take(all.len() as int) =~= all);
    Pie { title, slices: Some(slices) }
}

/// A chart has one slice for each model, in their order, and shows each count as it is; colors come
/// back after eight slices.
pub proof fn law_pie_slices(models: Seq<(Seq<char>, u64)>, title: Seq<char>, i: int)
    requires
        has_requests(models),
        0 <= i < models.len(),
    ensures
        pie_view(models, title).slices matches Some(slices) && slices.len() == models.len()
            && slices[i].count == models[i].1 && (i + 8 < models.len() ==> slices[i].color
            == slices[i + 8].color),
{
}

/// A slice is labelled with its model and the number of requests. There is no chart exactly where no
/// model has a request.
pub proof fn law_slices_name_their_models(models: Seq<(Seq<char>, u64)>, title: Seq<char>, i: int)
    requires
        0 <= i < models.len(),
    ensures
        pie_view(models, title).title == title,
        models[i].1 > 0 ==> pie_view(models, title).slices is Some,
        (forall|k: int| 0 <= k < models.len() ==> (#[trigger] models[k]).1 == 0) ==> pie_view(
            models,
            title,
        ).slices is None,
        pie_view(models, title).slices matches Some(slices) ==> slices.len() == models.len()
            && slices[i].count == models[i].1 && text::starts_with(slices[i].label, models[i].0)
            && text::ends_with(slices[i].label, text::decimal(models[i].1 as nat)),
{
    let count = text::decimal(models[i].1 as nat);
    text::lemma_ends_with(models[i].0 + " · "@, count);
    let label = models[i].0 + " · "@ + count;
    assert(label.take(models[i].0.len() as int) =~= models[i].0);
}

/// The first eight slices have different colors, and the others repeat them.
pub proof fn law_colors_differ(i: int, j: int)
    requires
        0 <= i < j,
    ensures
        j < 8 ==> palette(i) != palette(j),
        palette(i + 8) == palette(i),
{
}

} // verus!
