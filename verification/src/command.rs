//! The ffmpeg command line that compiles a timelapse.

use crate::text::{append_decimal, decimal_text};
use vstd::prelude::*;

verus! {

/// How a timelapse is encoded.
#[derive(Debug)]
pub struct VideoConfig {
    pub framerate: u32,
    pub codec: String,
    pub crf: u32,
    /// Whether each image dissolves into the next.
    pub dissolve: bool,
    /// The frame rate of a video with dissolves.
    pub transition_framerate: u32,
}

/// The coefficients of a lens correction, as text.
#[derive(Debug)]
pub struct LensTexts {
    pub k1: String,
    pub k2: String,
}

/// The numbers of a filter graph with dissolves, as text.
#[derive(Debug)]
pub struct TransitionTexts {
    /// The warp of the images with an even index.
    pub even: LensTexts,
    /// The warp of the images with an odd index.
    pub odd: LensTexts,
    /// How long each image lasts, its dissolve included.
    pub stream_duration: String,
    pub dissolve_duration: String,
    /// When the dissolve into each image but the first begins.
    pub offsets: Vec<String>,
}

/// An argument of the command line.
#[derive(Debug)]
pub enum Arg {
    Text(String),
    /// The path of the image with this index.
    Image(usize),
    /// The path of the list of frames.
    ConcatList,
    /// The path of the video.
    Output,
}

/// An argument, its text taken as a sequence of characters.
pub enum ArgView {
    Text(Seq<char>),
    Image(int),
    ConcatList,
    Output,
}

impl View for Arg {
    type V = ArgView;

    open spec fn view(&self) -> ArgView {
        match *self {
            Arg::Text(text) => ArgView::Text(text@),
            Arg::Image(index) => ArgView::Image(index as int),
            Arg::ConcatList => ArgView::ConcatList,
            Arg::Output => ArgView::Output,
        }
    }
}

pub open spec fn views(args: Seq<Arg>) -> Seq<ArgView> {
    args.map_values(|arg: Arg| arg@)
}

impl VideoConfig {
    /// Whether a video of so many images has dissolves.
    pub open spec fn dissolves(&self, images: int) -> bool {
        self.dissolve && images > 1
    }
}

impl TransitionTexts {
    /// The warp of an image: neighbours are warped in opposite directions.
    pub open spec fn lens(&self, index: int) -> LensTexts {
        if index % 2 == 0 {
            self.even
        } else {
            self.odd
        }
    }

    /// The filter that makes the stream `v` of an image's index from the image.
    pub open spec fn still_filter(&self, index: int) -> Seq<char> {
        "["@ + crate::text::decimal(index as nat) + ":v]lenscorrection=k1="@ + self.lens(index).k1@
            + ":k2="@ + self.lens(index).k2@ + ",trim=duration="@ + self.stream_duration@
            + ",setpts=PTS-STARTPTS[v"@ + crate::text::decimal(index as nat) + "];"@
    }

    /// The filter that dissolves what was made so far into the stream of an image.
    pub open spec fn fade_filter(&self, index: int) -> Seq<char> {
        "["@ + chain_label(index - 1) + "][v"@ + crate::text::decimal(index as nat)
            + "]xfade=transition=fade:duration="@ + self.dissolve_duration@ + ":offset="@
            + self.offsets@[index - 1]@ + "["@ + chain_label(index) + "];"@
    }

    /// The filters that make the streams of the first `count` images.
    pub open spec fn still_filters(&self, count: int) -> Seq<char>
        decreases count,
    {
        if count <= 0 {
            Seq::empty()
        } else {
            self.still_filters(count - 1) + self.still_filter(count - 1)
        }
    }

    /// The filters that dissolve the first `count` images into each other.
    pub open spec fn fade_filters(&self, count: int) -> Seq<char>
        decreases count,
    {
        if count <= 1 {
            Seq::empty()
        } else {
            self.fade_filters(count - 1) + self.fade_filter(count - 1)
        }
    }

    /// The filter graph of a video with dissolves.
    pub open spec fn filter_graph(&self, count: int) -> Seq<char> {
        self.still_filters(count) + self.fade_filters(count)
    }
}

/// The label of the stream that the images up to `index` have been dissolved into.
pub open spec fn chain_label(index: int) -> Seq<char> {
    if index <= 0 {
        "v0"@
    } else {
        "x"@ + crate::text::decimal(index as nat)
    }
}

fn append_chain_label(text: &mut String, index: usize)
    ensures
        final(text)@ == old(text)@ + chain_label(index as int),
{
    if index == 0 {
        text.append("v0");
    } else {
        text.append("x");
        append_decimal(text, index as u64);
        proof {
            assert(text@ =~= old(text)@ + chain_label(index as int));
        }
    }
}

fn append_still_filter(filter: &mut String, texts: &TransitionTexts, index: usize)
    ensures
        final(filter)@ == old(filter)@ + texts.still_filter(index as int),
{
    let lens = if index % 2 == 0 { &texts.even } else { &texts.odd };
    filter.append("[");
    append_decimal(filter, index as u64);
    filter.append(":v]lenscorrection=k1=");
    filter.append(lens.k1.as_str());
    filter.append(":k2=");
    filter.append(lens.k2.as_str());
    filter.append(",trim=duration=");
    filter.append(texts.stream_duration.as_str());
    filter.append(",setpts=PTS-STARTPTS[v");
    append_decimal(filter, index as u64);
    filter.append("];");
    proof {
        assert(filter@ =~= old(filter)@ + texts.still_filter(index as int));
    }
}

fn append_fade_filter(filter: &mut String, texts: &TransitionTexts, index: usize)
    requires
        1 <= index <= texts.offsets@.len(),
    ensures
        final(filter)@ == old(filter)@ + texts.fade_filter(index as int),
{
    filter.append("[");
    append_chain_label(filter, index - 1);
    filter.append("][v");
    append_decimal(filter, index as u64);
    filter.append("]xfade=transition=fade:duration=");
    filter.append(texts.dissolve_duration.as_str());
    filter.append(":offset=");
    filter.append(texts.offsets[index - 1].as_str());
    filter.append("[");
    append_chain_label(filter, index);
    filter.append("];");
    proof {
        assert(filter@ =~= old(filter)@ + texts.fade_filter(index as int));
    }
}

/// The filter graph of a video of `count` images with dissolves.
pub fn filter_graph(texts: &TransitionTexts, count: usize) -> (filter: String)
    requires
        count <= texts.offsets@.len() + 1,
    ensures
        filter@ == texts.filter_graph(count as int),
{
    let mut filter = String::new();
    let mut index: usize = 0;
    while index < count
        invariant
            index <= count,
            filter@ == texts.still_filters(index as int),
        decreases count - index,
    {
        append_still_filter(&mut filter, texts, index);
        index = index + 1;
    }
    let ghost stills = filter@;
    let mut index: usize = 1;
    proof {
        assert(stills + texts.fade_filters(1) =~= stills);
        assert(count == 0 ==> stills + texts.fade_filters(0) =~= stills);
    }
    while index < count
        invariant
            1 <= index,
            count <= texts.offsets@.len() + 1,
            index <= count || index == 1,
            filter@ == stills + texts.fade_filters(index as int),
        decreases count - index,
    {
        let ghost before = filter@;
        append_fade_filter(&mut filter, texts, index);
        proof {
            assert(before + texts.fade_filter(index as int) =~= stills + texts.fade_filters(
                index + 1,
            ));
        }
        index = index + 1;
    }
    filter
}

/// The arguments that make an image one of the inputs: shown on and on, at the given rate.
pub open spec fn loop_input(framerate: u32, index: int) -> Seq<ArgView> {
    seq![
        ArgView::Text("-loop"@),
        ArgView::Text("1"@),
        ArgView::Text("-framerate"@),
        ArgView::Text(crate::text::decimal(framerate as nat)),
        ArgView::Text("-i"@),
        ArgView::Image(index),
    ]
}

pub open spec fn loop_inputs(framerate: u32, count: int) -> Seq<ArgView>
    decreases count,
{
    if count <= 0 {
        Seq::empty()
    } else {
        loop_inputs(framerate, count - 1) + loop_input(framerate, count - 1)
    }
}

/// The arguments that name the inputs: every image with the filter graph over them, or the list
/// of frames.
pub open spec fn input_args(config: &VideoConfig, texts: &TransitionTexts, count: int) -> Seq<
    ArgView,
> {
    if config.dissolves(count) {
        loop_inputs(config.transition_framerate, count) + seq![
            ArgView::Text("-filter_complex"@),
            ArgView::Text(texts.filter_graph(count)),
            ArgView::Text("-map"@),
            ArgView::Text("["@ + chain_label(count - 1) + "]"@),
        ]
    } else {
        seq![
            ArgView::Text("-f"@),
            ArgView::Text("concat"@),
            ArgView::Text("-safe"@),
            ArgView::Text("0"@),
            ArgView::Text("-i"@),
            ArgView::ConcatList,
        ]
    }
}

/// The arguments that describe the video.
pub open spec fn output_args(config: &VideoConfig, count: int) -> Seq<ArgView> {
    let rate = if config.dissolves(count) {
        config.transition_framerate
    } else {
        config.framerate
    };
    seq![
        ArgView::Text("-r"@),
        ArgView::Text(crate::text::decimal(rate as nat)),
        ArgView::Text("-c:v"@),
        ArgView::Text(config.codec@),
        ArgView::Text("-crf"@),
        ArgView::Text(crate::text::decimal(config.crf as nat)),
        ArgView::Text("-pix_fmt"@),
        ArgView::Text("yuv420p"@),
        ArgView::Text("-progress"@),
        ArgView::Text("pipe:1"@),
        ArgView::Output,
    ]
}

/// All arguments of the command line.
pub open spec fn command_args(config: &VideoConfig, texts: &TransitionTexts, count: int) -> Seq<
    ArgView,
> {
    seq![ArgView::Text("-y"@)] + input_args(config, texts, count) + output_args(config, count)
}

fn push_arg(args: &mut Vec<Arg>, arg: Arg)
    ensures
        views(final(args)@) == views(old(args)@).push(arg@),
{
    args.push(arg);
    proof {
        assert(views(args@) =~= views(old(args)@).push(arg@));
    }
}

fn push_text(args: &mut Vec<Arg>, text: &str)
    ensures
        views(final(args)@) == views(old(args)@).push(ArgView::Text(text@)),
{
    push_arg(args, Arg::Text(text.to_owned()));
}

/// The arguments of the ffmpeg command line for `count` images.
pub fn ffmpeg_args(config: &VideoConfig, texts: &TransitionTexts, count: usize) -> (args: Vec<Arg>)
    requires
        config.dissolves(count as int) ==> count <= texts.offsets@.len() + 1,
    ensures
        views(args@) == command_args(config, texts, count as int),
        config.dissolve && count > 1 ==> views(args@)[6 * count + 4] == ArgView::Text(
            "["@ + ("x"@ + crate::text::decimal((count - 1) as nat)) + "]"@,
        ),
{
    let mut args: Vec<Arg> = Vec::new();
    push_text(&mut args, "-y");
    let ghost start = views(args@);
    proof {
        assert(start =~= seq![ArgView::Text("-y"@)]);
    }
    let dissolves = config.dissolve && count > 1;
    if dissolves {
        let mut index: usize = 0;
        proof {
            assert(start + loop_inputs(config.transition_framerate, 0) =~= start);
        }
        while index < count
            invariant
                index <= count,
                views(args@) == start + loop_inputs(config.transition_framerate, index as int),
            decreases count - index,
        {
            let ghost before = views(args@);
            push_text(&mut args, "-loop");
            push_text(&mut args, "1");
            push_text(&mut args, "-framerate");
            push_arg(&mut args, Arg::Text(decimal_text(config.transition_framerate as u64)));
            push_text(&mut args, "-i");
            push_arg(&mut args, Arg::Image(index));
            proof {
                assert(views(args@) =~= before + loop_input(
                    config.transition_framerate,
                    index as int,
                ));
                assert(views(args@) =~= start + loop_inputs(
                    config.transition_framerate,
                    index + 1,
                ));
            }
            index = index + 1;
        }
        push_text(&mut args, "-filter_complex");
        push_arg(&mut args, Arg::Text(filter_graph(texts, count)));
        push_text(&mut args, "-map");
        let mut output = "[".to_owned();
        append_chain_label(&mut output, count - 1);
        output.append("]");
        push_arg(&mut args, Arg::Text(output));
    } else {
        push_text(&mut args, "-f");
        push_text(&mut args, "concat");
        push_text(&mut args, "-safe");
        push_text(&mut args, "0");
        push_text(&mut args, "-i");
        push_arg(&mut args, Arg::ConcatList);
    }
    proof {
        assert(views(args@) =~= start + input_args(config, texts, count as int));
    }
    let ghost before = views(args@);
    let rate: u32 = if dissolves { config.transition_framerate } else { config.framerate };
    push_text(&mut args, "-r");
    push_arg(&mut args, Arg::Text(decimal_text(rate as u64)));
    push_text(&mut args, "-c:v");
    push_text(&mut args, config.codec.as_str());
    push_text(&mut args, "-crf");
    push_arg(&mut args, Arg::Text(decimal_text(config.crf as u64)));
    push_text(&mut args, "-pix_fmt");
    push_text(&mut args, "yuv420p");
    push_text(&mut args, "-progress");
    push_text(&mut args, "pipe:1");
    push_arg(&mut args, Arg::Output);
    proof {
        assert(views(args@) =~= before + output_args(config, count as int));
        if dissolves {
            dissolve_command(config, texts, count as int);
        }
    }
    args
}

/// The streams that filters make have labels of their own.
pub proof fn chain_labels_are_distinct(i: int, j: int)
    requires
        0 <= i < j,
    ensures
        chain_label(i) != chain_label(j),
{
    reveal_strlit("v0");
    reveal_strlit("x");
    if i == 0 {
        assert(chain_label(0)[0] == 'v');
        assert(chain_label(j)[0] == 'x');
    } else if chain_label(i) == chain_label(j) {
        assert(chain_label(i).drop_first() =~= crate::text::decimal(i as nat));
        assert(chain_label(j).drop_first() =~= crate::text::decimal(j as nat));
        crate::text::decimal_is_injective(i as nat, j as nat);
    }
}

/// The label of the stream of an image.
pub open spec fn still_label(index: int) -> Seq<char> {
    "v"@ + crate::text::decimal(index as nat)
}

/// The streams of different images have different labels, and the chain of dissolves starts with
/// the stream of the first image and otherwise has labels of its own.
pub proof fn still_labels_are_distinct(i: int, j: int)
    requires
        0 <= i,
        0 <= j,
    ensures
        still_label(i) == still_label(j) ==> i == j,
        chain_label(i) == still_label(j) <==> i == 0 && j == 0,
{
    reveal_strlit("v0");
    reveal_strlit("v");
    reveal_strlit("x");
    if still_label(i) == still_label(j) {
        assert(still_label(i).drop_first() =~= crate::text::decimal(i as nat));
        assert(still_label(j).drop_first() =~= crate::text::decimal(j as nat));
        crate::text::decimal_is_injective(i as nat, j as nat);
    }
    assert(still_label(0) =~= chain_label(0));
    if i > 0 {
        assert(chain_label(i)[0] == 'x');
        assert(still_label(j)[0] == 'v');
    } else if chain_label(0) == still_label(j) {
        assert(still_label(0).drop_first() =~= crate::text::decimal(0));
        assert(still_label(j).drop_first() =~= crate::text::decimal(j as nat));
        crate::text::decimal_is_injective(0, j as nat);
    }
}

/// The inputs of a video with dissolves are the images, in order: the stream that a filter takes
/// by its index is the image with that index.
pub proof fn inputs_are_the_images(framerate: u32, count: int, index: int)
    requires
        0 <= index < count,
    ensures
        loop_inputs(framerate, count).len() == 6 * count,
        loop_inputs(framerate, count)[6 * index + 5] == ArgView::Image(index),
    decreases count,
{
    if count == 1 {
        assert(loop_inputs(framerate, 0).len() == 0);
    } else {
        inputs_are_the_images(framerate, count - 1, if index < count - 1 { index } else { 0 });
    }
}

/// Neighbouring images are warped differently, every second one alike.
pub proof fn warp_alternates(texts: &TransitionTexts, index: int)
    ensures
        (texts.lens(index) == texts.even && texts.lens(index + 1) == texts.odd) || (texts.lens(
            index,
        ) == texts.odd && texts.lens(index + 1) == texts.even),
        texts.lens(index) == texts.lens(index + 2),
{
}

/// Whether a filter takes the stream with a label: the label stands in it in brackets.
pub open spec fn takes(filter: Seq<char>, label: Seq<char>) -> bool {
    exists|at: int|
        0 <= at && at + label.len() + 2 <= filter.len() && #[trigger] filter.subrange(
            at,
            at + label.len() + 2,
        ) == "["@ + label + "]"@
}

/// Whether a filter makes the stream with a label: it ends with the label in brackets.
pub open spec fn makes(filter: Seq<char>, label: Seq<char>) -> bool {
    ("["@ + label + "];"@).is_suffix_of(filter)
}

/// The filter of an image, with the warp of the even or of the odd images.
pub proof fn stills_are_warped_and_trimmed(texts: &TransitionTexts, index: int)
    requires
        0 <= index,
    ensures
        ({
            let warp = if index % 2 == 0 {
                texts.even
            } else {
                texts.odd
            };
            let number = crate::text::decimal(index as nat);
            texts.still_filter(index) == "["@ + number + ":v]lenscorrection=k1="@ + warp.k1@
                + ":k2="@ + warp.k2@ + ",trim=duration="@ + texts.stream_duration@
                + ",setpts=PTS-STARTPTS[v"@ + number + "];"@
        }),
{
}

/// A dissolve goes from what the one before it made, or from the first image, to its own image.
/// It begins at the offset that is given for it, and what it makes is named after its image.
pub proof fn dissolves_follow_each_other(texts: &TransitionTexts, index: int)
    requires
        1 <= index,
    ensures
        ({
            let before = if index == 1 {
                "v0"@
            } else {
                "x"@ + crate::text::decimal((index - 1) as nat)
            };
            let number = crate::text::decimal(index as nat);
            texts.fade_filter(index) == "["@ + before + "][v"@ + number
                + "]xfade=transition=fade:duration="@ + texts.dissolve_duration@ + ":offset="@
                + texts.offsets@[index - 1]@ + "["@ + ("x"@ + number) + "];"@
        }),
{
}

/// The filters for one more image come after those of the others: its own, and the dissolve into
/// it. No filter is needed for no image, and no dissolve for one.
pub proof fn graphs_grow_by_an_image(texts: &TransitionTexts, count: int)
    requires
        1 <= count,
    ensures
        texts.still_filters(0).len() == 0,
        texts.fade_filters(0).len() == 0,
        texts.fade_filters(1).len() == 0,
        texts.still_filters(count) == texts.still_filters(count - 1) + texts.still_filter(
            count - 1,
        ),
        texts.fade_filters(count + 1) == texts.fade_filters(count) + texts.fade_filter(count),
        texts.filter_graph(count) == texts.still_filters(count) + texts.fade_filters(count),
{
}

/// The graph holds the filter of every image and every dissolve.
pub proof fn graph_holds_every_filter(texts: &TransitionTexts, count: int, index: int) -> (rest: (
    (Seq<char>, Seq<char>),
    (Seq<char>, Seq<char>),
))
    requires
        0 <= index < count,
    ensures
        texts.filter_graph(count) == rest.0.0 + texts.still_filter(index) + rest.0.1,
        1 <= index ==> texts.filter_graph(count) == rest.1.0 + texts.fade_filter(index) + rest.1.1,
{
    let stills = texts.still_filters(count);
    let fades = texts.fade_filters(count);
    let after = lemma_stills_hold(texts, count, index);
    assert(stills + fades =~= texts.still_filters(index) + texts.still_filter(index) + (after
        + fades));
    let still_rest = (texts.still_filters(index), after + fades);
    if 1 <= index {
        let after = lemma_fades_hold(texts, count, index);
        let before = stills + texts.fade_filters(index);
        assert(stills + fades =~= before + texts.fade_filter(index) + after);
        (still_rest, (before, after))
    } else {
        (still_rest, still_rest)
    }
}

proof fn lemma_stills_hold(texts: &TransitionTexts, count: int, index: int) -> (after: Seq<char>)
    requires
        0 <= index < count,
    ensures
        texts.still_filters(count) == texts.still_filters(index) + texts.still_filter(index)
            + after,
    decreases count,
{
    if index == count - 1 {
        let after = Seq::<char>::empty();
        assert(texts.still_filters(count) =~= texts.still_filters(index) + texts.still_filter(index)
            + after);
        after
    } else {
        let before = lemma_stills_hold(texts, count - 1, index);
        let after = before + texts.still_filter(count - 1);
        assert(texts.still_filters(count) =~= texts.still_filters(index) + texts.still_filter(index)
            + after);
        after
    }
}

proof fn lemma_fades_hold(texts: &TransitionTexts, count: int, index: int) -> (after: Seq<char>)
    requires
        1 <= index < count,
    ensures
        texts.fade_filters(count) == texts.fade_filters(index) + texts.fade_filter(index) + after,
    decreases count,
{
    if index == count - 1 {
        let after = Seq::<char>::empty();
        assert(texts.fade_filters(count) =~= texts.fade_filters(index) + texts.fade_filter(index)
            + after);
        after
    } else {
        let before = lemma_fades_hold(texts, count - 1, index);
        let after = before + texts.fade_filter(count - 1);
        assert(texts.fade_filters(count) =~= texts.fade_filters(index) + texts.fade_filter(index)
            + after);
        after
    }
}

/// What a dissolve takes and makes.
proof fn lemma_dissolve_links(texts: &TransitionTexts, index: int)
    requires
        1 <= index,
    ensures
        takes(texts.fade_filter(index), chain_label(index - 1)),
        takes(texts.fade_filter(index), "v"@ + crate::text::decimal(index as nat)),
        makes(texts.fade_filter(index), "x"@ + crate::text::decimal(index as nat)),
{
    reveal_strlit("[");
    reveal_strlit("]");
    reveal_strlit("v");
    reveal_strlit("][v");
    reveal_strlit("]xfade=transition=fade:duration=");
    let filter = texts.fade_filter(index);
    let before = chain_label(index - 1);
    let number = crate::text::decimal(index as nat);
    let image = "v"@ + number;
    let first = before.len() as int;
    assert(filter.subrange(0, 0 + before.len() as int + 2) =~= "["@ + before + "]"@);
    assert(filter.subrange(first + 2, first + 2 + image.len() + 2) =~= "["@ + image + "]"@);
    let end = "["@ + ("x"@ + number) + "];"@;
    assert(filter.subrange(filter.len() - end.len(), filter.len() as int) =~= end);
}

/// The stream that becomes the video shows every image: from the stream of any image, filters of
/// the graph lead on, each from a stream that it takes to the one that it makes, up to the stream
/// that is mapped.
pub proof fn video_shows_every_image(
    config: &VideoConfig,
    texts: &TransitionTexts,
    count: int,
    image: int,
) -> (path: Seq<Seq<char>>)
    requires
        config.dissolve,
        1 < count,
        0 <= image < count,
    ensures
        path.len() > 1,
        path[0] == "v"@ + crate::text::decimal(image as nat),
        command_args(config, texts, count)[6 * count + 3] == ArgView::Text("-map"@),
        command_args(config, texts, count)[6 * count + 4] == ArgView::Text(
            "["@ + path.last() + "]"@,
        ),
        forall|j: int|
            0 <= j < path.len() - 1 ==> exists|k: int|
                1 <= k < count && takes(#[trigger] texts.fade_filter(k), #[trigger] path[j])
                    && makes(texts.fade_filter(k), path[j + 1]),
{
    let first = if image == 0 {
        1
    } else {
        image
    };
    let start = "v"@ + crate::text::decimal(image as nat);
    let chain = Seq::new(
        (count - first) as nat,
        |j: int| "x"@ + crate::text::decimal((first + j) as nat),
    );
    let path = seq![start] + chain;
    dissolve_command(config, texts, count);
    assert(path.last() == "x"@ + crate::text::decimal((count - 1) as nat));
    assert forall|j: int| 0 <= j < path.len() - 1 implies exists|k: int|
        1 <= k < count && takes(#[trigger] texts.fade_filter(k), #[trigger] path[j]) && makes(
            texts.fade_filter(k),
            path[j + 1],
        ) by {
        let k = first + j;
        lemma_dissolve_links(texts, k);
        assert(path[j + 1] == "x"@ + crate::text::decimal(k as nat));
        if j == 0 {
            if image == 0 {
                still_labels_are_distinct(0, 0);
                assert(path[0] == chain_label(0));
            }
        } else {
            assert(path[j] == chain_label(k - 1));
        }
        assert(takes(texts.fade_filter(k), path[j]));
    }
    path
}

/// The stream that becomes the video is the last that was made: no dissolve takes it.
pub proof fn mapped_stream_is_the_last(count: int, index: int)
    requires
        1 <= index < count,
    ensures
        ({
            let mapped = "x"@ + crate::text::decimal((count - 1) as nat);
            &&& mapped != chain_label(index - 1)
            &&& mapped != "v0"@
            &&& mapped != "v"@ + crate::text::decimal(index as nat)
            &&& index < count - 1 ==> mapped != "x"@ + crate::text::decimal(index as nat)
        }),
{
    chain_labels_are_distinct(index - 1, count - 1);
    if index < count - 1 {
        chain_labels_are_distinct(index, count - 1);
    }
    chain_labels_are_distinct(0, count - 1);
    still_labels_are_distinct(count - 1, index);
}

/// The graph ends with the dissolve that makes the stream that becomes the video.
pub proof fn graph_ends_with_the_mapped_stream(texts: &TransitionTexts, count: int)
    requires
        1 < count,
    ensures
        makes(texts.filter_graph(count), "x"@ + crate::text::decimal((count - 1) as nat)),
{
    lemma_dissolve_links(texts, count - 1);
    let graph = texts.filter_graph(count);
    let filter = texts.fade_filter(count - 1);
    let end = "["@ + ("x"@ + crate::text::decimal((count - 1) as nat)) + "];"@;
    assert(graph =~= texts.still_filters(count) + texts.fade_filters(count - 1) + filter);
    assert(graph.subrange(graph.len() - end.len(), graph.len() as int) =~= filter.subrange(
        filter.len() - end.len(),
        filter.len() as int,
    ));
}

/// The command line of a video with dissolves: every image as an input, the graph, the last
/// stream that the graph makes, and what describes the video, at the rate of the transitions.
pub proof fn dissolve_command(config: &VideoConfig, texts: &TransitionTexts, count: int)
    requires
        config.dissolve,
        1 < count,
    ensures
        ({
            let args = command_args(config, texts, count);
            let rate = ArgView::Text(crate::text::decimal(config.transition_framerate as nat));
            &&& args.len() == 6 * count + 16
            &&& args[0] == ArgView::Text("-y"@)
            &&& forall|i: int|
                0 <= i < count ==> #[trigger] args.subrange(6 * i + 1, 6 * i + 7) == seq![
                    ArgView::Text("-loop"@),
                    ArgView::Text("1"@),
                    ArgView::Text("-framerate"@),
                    rate,
                    ArgView::Text("-i"@),
                    ArgView::Image(i),
                ]
            &&& args.skip(6 * count + 1) == seq![
                ArgView::Text("-filter_complex"@),
                ArgView::Text(texts.filter_graph(count)),
                ArgView::Text("-map"@),
                ArgView::Text("["@ + ("x"@ + crate::text::decimal((count - 1) as nat)) + "]"@),
                ArgView::Text("-r"@),
                rate,
                ArgView::Text("-c:v"@),
                ArgView::Text(config.codec@),
                ArgView::Text("-crf"@),
                ArgView::Text(crate::text::decimal(config.crf as nat)),
                ArgView::Text("-pix_fmt"@),
                ArgView::Text("yuv420p"@),
                ArgView::Text("-progress"@),
                ArgView::Text("pipe:1"@),
                ArgView::Output,
            ]
            &&& args[6 * count + 3] == ArgView::Text("-map"@)
            &&& args[6 * count + 4] == ArgView::Text(
                "["@ + ("x"@ + crate::text::decimal((count - 1) as nat)) + "]"@,
            )
        }),
{
    let args = command_args(config, texts, count);
    let inputs = loop_inputs(config.transition_framerate, count);
    inputs_are_the_images(config.transition_framerate, count, 0);
    assert forall|i: int| 0 <= i < count implies #[trigger] args.subrange(6 * i + 1, 6 * i + 7) == seq![
        ArgView::Text("-loop"@),
        ArgView::Text("1"@),
        ArgView::Text("-framerate"@),
        ArgView::Text(crate::text::decimal(config.transition_framerate as nat)),
        ArgView::Text("-i"@),
        ArgView::Image(i),
    ] by {
        lemma_loop_input_at(config.transition_framerate, count, i);
        assert(args.subrange(6 * i + 1, 6 * i + 7) =~= inputs.subrange(6 * i, 6 * i + 6));
    }
    let tail = args.skip(6 * count + 1);
    assert(tail =~= input_args(config, texts, count).skip(6 * count) + output_args(config, count));
    assert(tail[2] == args[6 * count + 3]);
    assert(tail[3] == args[6 * count + 4]);
}

proof fn lemma_loop_input_at(framerate: u32, count: int, index: int)
    requires
        0 <= index < count,
    ensures
        loop_inputs(framerate, count).len() == 6 * count,
        loop_inputs(framerate, count).subrange(6 * index, 6 * index + 6) == loop_input(
            framerate,
            index,
        ),
    decreases count,
{
    inputs_are_the_images(framerate, count, index);
    let before = loop_inputs(framerate, count - 1);
    if count > 1 {
        inputs_are_the_images(framerate, count - 1, 0);
    }
    if index < count - 1 {
        lemma_loop_input_at(framerate, count - 1, index);
        assert(loop_inputs(framerate, count).subrange(6 * index, 6 * index + 6)
            =~= before.subrange(6 * index, 6 * index + 6));
    } else {
        assert(before.len() == 6 * index);
        assert(loop_inputs(framerate, count).subrange(6 * index, 6 * index + 6) =~= loop_input(
            framerate,
            index,
        ));
    }
}

/// The command line of a video without dissolves: the list of frames as the only input, and what
/// describes the video, at its own rate. A single image has nothing to dissolve into.
pub proof fn list_command(config: &VideoConfig, texts: &TransitionTexts, count: int)
    requires
        !config.dissolve || count <= 1,
    ensures
        command_args(config, texts, count) == seq![
            ArgView::Text("-y"@),
            ArgView::Text("-f"@),
            ArgView::Text("concat"@),
            ArgView::Text("-safe"@),
            ArgView::Text("0"@),
            ArgView::Text("-i"@),
            ArgView::ConcatList,
            ArgView::Text("-r"@),
            ArgView::Text(crate::text::decimal(config.framerate as nat)),
            ArgView::Text("-c:v"@),
            ArgView::Text(config.codec@),
            ArgView::Text("-crf"@),
            ArgView::Text(crate::text::decimal(config.crf as nat)),
            ArgView::Text("-pix_fmt"@),
            ArgView::Text("yuv420p"@),
            ArgView::Text("-progress"@),
            ArgView::Text("pipe:1"@),
            ArgView::Output,
        ],
{
}

/// The view of arguments keeps their number, their texts and the indices of images.
pub proof fn views_keep_the_arguments(args: Seq<Arg>, i: int)
    requires
        0 <= i < args.len(),
    ensures
        views(args).len() == args.len(),
        match args[i] {
            Arg::Text(text) => views(args)[i] == ArgView::Text(text@),
            Arg::Image(index) => views(args)[i] == ArgView::Image(index as int),
            Arg::ConcatList => views(args)[i] == ArgView::ConcatList,
            Arg::Output => views(args)[i] == ArgView::Output,
        },
{
}

} // verus!
