//! What a chart page is to be rendered with. Rendering itself, and the
//! files it reads and writes, are the caller's.

use vstd::prelude::*;

verus! {

/// Where the page links to for the raw data.
#[derive(Clone, Debug)]
pub struct DownloadLinks {
    pub history: String,
    pub forecast: String,
}

/// The link to the history unless another is given.
pub open spec fn default_history_link() -> Seq<char> {
    "history.csv"@
}

/// The link to the forecast unless another is given.
pub open spec fn default_forecast_link() -> Seq<char> {
    "forecast.csv"@
}

impl DownloadLinks {
    /// Both links are the default ones.
    pub open spec fn is_default(self) -> bool {
        self.history@ == default_history_link() && self.forecast@ == default_forecast_link()
    }
}

impl Default for DownloadLinks {
    fn default() -> (links: DownloadLinks)
        ensures
            links.is_default(),
    {
        DownloadLinks { history: "history.csv".to_owned(), forecast: "forecast.csv".to_owned() }
    }
}

/// A rendering job: which series to read, where the page goes and what it shows.
#[derive(Clone, Debug)]
pub struct ChartJob {
    /// Path of the history to chart.
    pub csv_path: String,
    /// Path of the page to write.
    pub output_html: String,
    /// Whether a forecast is drawn over the history.
    pub with_forecast: bool,
    /// The links the page offers.
    pub links: DownloadLinks,
    /// Whether the page is minified before it is written.
    pub minify_html: bool,
}

/// The links a page offers: the ones given, or the defaults.
pub fn resolve_links(download_links: Option<DownloadLinks>) -> (links: DownloadLinks)
    ensures
        download_links.is_some() ==> links == download_links.unwrap(),
        download_links.is_none() ==> links.is_default(),
{
    match download_links {
        Some(links) => links,
        None => DownloadLinks::default(),
    }
}

/// The job of charting a history with, or without, a forecast over it.
pub fn draw_area_chart_with_forecast(
    csv_path: &str,
    output_html: &str,
    with_forecast: bool,
    download_links: Option<DownloadLinks>,
    minify_html: bool,
) -> (job: ChartJob)
    ensures
        job.csv_path@ == csv_path@,
        job.output_html@ == output_html@,
        job.with_forecast == with_forecast,
        job.minify_html == minify_html,
        download_links.is_some() ==> job.links == download_links.unwrap(),
        download_links.is_none() ==> job.links.is_default(),
{
    ChartJob {
        csv_path: csv_path.to_owned(),
        output_html: output_html.to_owned(),
        with_forecast,
        links: resolve_links(download_links),
        minify_html,
    }
}

/// The job of charting a history alone: no forecast over it, the default
/// links, the page as rendered.
pub fn draw_area_chart(csv_path: &str, output_html: &str) -> (job: ChartJob)
    ensures
        job.csv_path@ == csv_path@,
        job.output_html@ == output_html@,
        !job.with_forecast,
        !job.minify_html,
        job.links.is_default(),
{
    draw_area_chart_with_forecast(csv_path, output_html, false, None, false)
}

} // verus!
