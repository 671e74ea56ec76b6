//! Laws of what the user is told, and of settings on their way to needle.

use vstd::arithmetic::power::*;
use vstd::prelude::*;

use crate::app::messages::summary_text;
use crate::binary::{
    binary, lemma_limits, lemma_nearest, lemma_shrunk, seconds, single, single_nanos, Binary,
};
use crate::detect::cli::knows_endings;
use crate::detect::library::comparison_of;
use crate::detect::DetectOptions;
use crate::error::Fault;
use crate::exec::Captured;
use crate::fonts::usable;
use crate::laws::names::{is_without, parts_occur_between_others};
use crate::laws::shown::lemma_seconds;
use crate::laws::times::{lemma_decimal, lemma_pieces_split};
use crate::laws::typed::lemma_replaced_one;
use crate::needle::FrameHashes;
use crate::numbers::{digit, fixed_secs, nearest};
use crate::paths::{has_drive, steps};
use crate::pipeline::CutSummary;
use crate::secs::Secs;
use crate::text::{decimal, lower_text, occurs, pieces, replaced};

verus! {

proof fn lemma_occurs(a: Seq<char>, part: Seq<char>, b: Seq<char>)
    ensures
        occurs(a + part + b, part),
{
    let s = a + part + b;
    let i = a.len() as int;
    assert(s.subrange(i, i + part.len()) =~= part);
}

/// An error tells what it is about: the program, the file, or what the system said.
pub proof fn errors_tell_what_they_are_about(f: Fault)
    ensures
        match f {
            Fault::ToolNotFound { tool } => occurs(f.text(), tool),
            Fault::CommandFailed { cmd, code, stderr } => occurs(f.text(), cmd) && occurs(
                f.text(),
                code,
            ),
            Fault::OutputExists(p) => occurs(f.text(), p),
            Fault::ParseFailed { what, detail } => occurs(f.text(), what) && occurs(
                f.text(),
                detail,
            ),
            Fault::DurationUnknown(p) => occurs(f.text(), p),
            Fault::NoAudioStream(p) => occurs(f.text(), p),
            Fault::NotEnoughEpisodes(n) => occurs(f.text(), decimal(n)),
            Fault::OutputEqualsInput(p) => occurs(f.text(), p),
            Fault::NothingToKeep(p) => occurs(f.text(), p),
            Fault::Io(e) => occurs(f.text(), e),
            Fault::Json(e) => occurs(f.text(), e),
            Fault::NoDetectionAtAll | Fault::Cancelled => true,
        },
{
    let none = Seq::<char>::empty();
    let t = f.text();
    match f {
        Fault::ToolNotFound { tool } => {
            lemma_occurs(
                "未找到 "@,
                tool,
                "，请先安装它并确保它在 PATH 中，或在本工具里手动指定其所在目录"@,
            );
        },
        Fault::CommandFailed { cmd, code, stderr } => {
            lemma_occurs(cmd + " 执行失败（"@, code, "）"@);
            let rest = " 执行失败（"@ + code + "）"@;
            lemma_occurs(none, cmd, rest);
            assert(t =~= none + cmd + rest);
        },
        Fault::OutputExists(p) => {
            lemma_occurs(
                "输出文件已存在："@,
                p,
                "（勾选「覆盖已存在的输出文件」可以覆盖它）"@,
            );
        },
        Fault::ParseFailed { what, detail } => {
            let front = "解析 "@ + what + " 的输出失败："@;
            lemma_occurs(front, detail, none);
            assert(t =~= front + detail + none);
            let rest = " 的输出失败："@ + detail;
            lemma_occurs("解析 "@, what, rest);
            assert(t =~= "解析 "@ + what + rest);
        },
        Fault::DurationUnknown(p) => {
            lemma_occurs("无法从视频中读出时长："@, p, none);
            assert(t =~= "无法从视频中读出时长："@ + p + none);
        },
        Fault::NoAudioStream(p) => {
            lemma_occurs("文件不含音轨，needle 无法分析："@, p, none);
            assert(t =~= "文件不含音轨，needle 无法分析："@ + p + none);
        },
        Fault::NotEnoughEpisodes(n) => {
            lemma_occurs(
                "只找到 "@,
                decimal(n),
                " 个视频文件；跨集比对至少需要 2 集才能工作"@,
            );
        },
        Fault::OutputEqualsInput(p) => {
            lemma_occurs("输出路径与输入相同，拒绝执行以免覆盖源文件："@, p, none);
            assert(t =~= "输出路径与输入相同，拒绝执行以免覆盖源文件："@ + p + none);
        },
        Fault::NothingToKeep(p) => {
            lemma_occurs("片头片尾覆盖了整段视频，没有可保留的内容："@, p, none);
            assert(t =~= "片头片尾覆盖了整段视频，没有可保留的内容："@ + p + none);
        },
        Fault::Io(e) => {
            lemma_occurs("IO 错误："@, e, none);
            assert(t =~= "IO 错误："@ + e + none);
        },
        Fault::Json(e) => {
            lemma_occurs("JSON 解析错误："@, e, none);
            assert(t =~= "JSON 解析错误："@ + e + none);
        },
        _ => {},
    }
}

proof fn lemma_counted(front: Seq<char>, n: nat)
    requires
        is_without(front, '，'),
    ensures
        is_without(front + decimal(n), '，'),
{
    lemma_decimal(n);
    let s = front + decimal(n);
    assert forall|i: int| 0 <= i < s.len() implies #[trigger] s[i] != '，' by {
        if i < front.len() {
            assert(s[i] == front[i]);
        } else {
            assert(s[i] == decimal(n)[i - front.len()] && digit(decimal(n)[i - front.len()]));
        }
    }
}

/// What came of all cuts is told: how many went well, how many did not, and how many
/// were not to be done, in this order.
pub proof fn summaries_tell_how_many(s: CutSummary)
    ensures
        ({
            let parts = pieces(summary_text(s), '，');
            &&& parts.len() >= 4
            &&& parts[0] == "切割结束：成功 "@ + decimal(s.succeeded as nat)
            &&& parts[1] == "失败 "@ + decimal(s.failed as nat)
            &&& parts[2] == "跳过 "@ + decimal(s.skipped as nat)
        }),
{
    reveal_strlit("切割结束：成功 ");
    reveal_strlit("，失败 ");
    reveal_strlit("失败 ");
    reveal_strlit("，跳过 ");
    reveal_strlit("跳过 ");
    reveal_strlit("，共产出 ");
    reveal_strlit("共产出 ");
    let a = "切割结束：成功 "@ + decimal(s.succeeded as nat);
    let b = "失败 "@ + decimal(s.failed as nat);
    let c = "跳过 "@ + decimal(s.skipped as nat);
    let d = "共产出 "@ + fixed_secs(s.produced_secs, 60, 1) + " 分钟"@;
    assert("，失败 "@ =~= seq!['，'] + "失败 "@);
    assert("，跳过 "@ =~= seq!['，'] + "跳过 "@);
    assert("，共产出 "@ =~= seq!['，'] + "共产出 "@);
    let two = c + seq!['，'] + d;
    let three = b + seq!['，'] + two;
    assert(summary_text(s) =~= a + seq!['，'] + three);
    lemma_counted("切割结束：成功 "@, s.succeeded as nat);
    lemma_counted("失败 "@, s.failed as nat);
    lemma_counted("跳过 "@, s.skipped as nat);
    lemma_pieces_split(a, three, '，');
    lemma_pieces_split(b, two, '，');
    lemma_pieces_split(c, d, '，');
    assert(pieces(d, '，').len() >= 1);
}

/// A needle knows of endings just where its help speaks of them, wherever it is
/// written to.
pub proof fn help_tells_of_endings(out: Captured, error: String)
    ensures
        knows_endings(Ok(out)) <==> (exists|a: Seq<char>, b: Seq<char>| #[trigger]
            (a + "--include-endings"@ + b) == out.stdout@) || (exists|a: Seq<char>, b: Seq<char>|
            #[trigger] (a + "--include-endings"@ + b) == out.stderr@),
        !knows_endings(Err(error)),
{
    parts_occur_between_others(out.stdout@, "--include-endings"@);
    parts_occur_between_others(out.stderr@, "--include-endings"@);
}

/// A file is taken for a font just where it could be read and has a kilobyte.
pub proof fn fonts_have_a_kilobyte(n: usize)
    ensures
        usable(Some(n)) <==> n >= 1024,
        !usable(None),
{
}

/// A path with a drive is the same with either separator.
pub proof fn separators_of_windows_are_alike(p: Seq<char>, q: Seq<char>)
    requires
        has_drive(p),
        q == p.map_values(
            |c: char|
                if c == '\\' {
                    '/'
                } else {
                    c
                },
        ),
    ensures
        steps(q) == steps(p),
{
    reveal_strlit("/");
    assert("/"@ =~= seq!['/']);
    let f = |c: char|
        if c == '\\' {
            '/'
        } else {
            c
        };
    assert(has_drive(q)) by {
        assert(q[0] == p[0] && q[1] == p[1] && (q[2] == '/' || q[2] == '\\'));
    }
    lemma_replaced_one(p.skip(2), '\\', '/');
    lemma_replaced_one(q.skip(2), '\\', '/');
    assert(replaced(p.skip(2), '\\', "/"@) =~= replaced(q.skip(2), '\\', "/"@));
    assert(lower_text(q.take(2)) =~= lower_text(p.take(2)));
}

/// The padding that needle is given as a library is the one that is wanted, to one
/// part in sixteen million.
pub proof fn paddings_are_those_that_are_wanted(
    videos: Seq<Seq<char>>,
    hashes: Seq<FrameHashes>,
    opts: DetectOptions,
    n: i128,
)
    requires
        opts.time_padding_secs == Secs::Finite(n),
        0 <= n <= 8_388_608_000_000_000,
    ensures
        comparison_of(videos, hashes, opts).time_padding matches Secs::Finite(t) && -(n
            + 50_331_648) <= 16_777_216 * (t - n) <= n + 50_331_648,
{
    lemma_limits();
    lemma_pow0(2);
    if n == 0 {
        assert(seconds(0) == (Binary { m: 0, e: 0 }));
        assert(binary(0, 1, 24) == (Binary { m: 0, e: 0 }));
        assert(single(0).num() == 0);
        assert(single_nanos(0) == 0);
    } else {
        lemma_single(n as nat);
        let t = single_nanos(n as nat) as int;
        assert(t <= i128::MAX);
    }
}

proof fn lemma_single(n: nat)
    requires
        0 < n <= 8_388_608_000_000_000,
    ensures
        -(n + 50_331_648) <= 16_777_216 * (single_nanos(n) - n) <= n + 50_331_648,
{
    lemma_limits();
    lemma_seconds(n);
    let a = seconds(n);
    let k = (-a.e) as nat;
    let p = pow(2, k);
    let m = a.m as int;
    let b = binary(a.m, 1, 24);
    lemma_shrunk(a.m, 1, 24);
    let s = b.e as nat;
    let q = pow(2, s);
    assert(1 * q == q);
    let y = b.m as int;
    assert(y * (1 * q) == y * q);
    lemma_pow_positive(2, s);
    assert(q < 2 * p) by (nonlinear_arith)
        requires
            q * 16_777_216 <= 2 * m,
            2 * (m * 1_000_000_000 - n * p) <= 1_000_000_000,
            n <= 8_388_608_000_000_000,
            p >= 500_000_000,
    ;
    assert(s <= k) by {
        if s > k {
            lemma_pow_increases(2, k + 1, s);
            lemma_pow_adds(2, k, 1);
            assert(pow(2, 1) == 2) by {
                reveal_with_fuel(pow, 2);
            }
        }
    }
    let d = pow(2, (k - s) as nat);
    lemma_pow_adds(2, (k - s) as nat, s);
    lemma_pow_positive(2, (k - s) as nat);
    let r = single(n);
    assert(r == (Binary { m: b.m, e: s - k }));
    if s == k {
        lemma_pow0(2);
        assert(r.num() == b.m * pow(2, 0));
        assert(b.m * 1 == b.m);
    }
    assert(r.num() == b.m && r.den() == d);
    let t = nearest(b.m * 1_000_000_000, d as nat) as int;
    lemma_nearest(b.m * 1_000_000_000, d as nat);
    assert(single_nanos(n) == t);
    assert(-(p + q * 1_000_000_000) <= 2 * (t * p - m * 1_000_000_000) <= p + q * 1_000_000_000)
        by (nonlinear_arith)
        requires
            -d <= 2 * (t * d - y * 1_000_000_000) <= d,
            -q <= 2 * (y * q - m) <= q,
            p == d * q,
            q > 0,
    ;
    assert(q * 1_000_000_000 * 16_777_216 <= 2 * (n * p) + 1_000_000_000) by (nonlinear_arith)
        requires
            q * 16_777_216 <= 2 * m,
            2 * (m * 1_000_000_000 - n * p) <= 1_000_000_000,
    ;
    assert(-(n + 50_331_648) <= 16_777_216 * (t - n) <= n + 50_331_648) by (nonlinear_arith)
        requires
            -(p + q * 1_000_000_000) <= 2 * (t * p - m * 1_000_000_000) <= p + q * 1_000_000_000,
            -1_000_000_000 <= 2 * (m * 1_000_000_000 - n * p) <= 1_000_000_000,
            q * 1_000_000_000 * 16_777_216 <= 2 * (n * p) + 1_000_000_000,
            p >= 500_000_000,
    ;
}

} // verus!
