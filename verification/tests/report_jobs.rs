use territory_forecast::report::{
    draw_area_chart, draw_area_chart_with_forecast, resolve_links, DownloadLinks,
};

#[test]
fn chart_alone_uses_default_links() {
    let job = draw_area_chart("data/area_history.csv", "img/area.html");
    assert_eq!(job.csv_path, "data/area_history.csv");
    assert_eq!(job.output_html, "img/area.html");
    assert!(!job.with_forecast);
    assert!(!job.minify_html);
    assert_eq!(job.links.history, "history.csv");
    assert_eq!(job.links.forecast, "forecast.csv");
}

#[test]
fn default_links_name_the_two_files() {
    let links = DownloadLinks::default();
    assert_eq!(links.history, "history.csv");
    assert_eq!(links.forecast, "forecast.csv");
}

#[test]
fn given_links_are_kept() {
    let given = DownloadLinks { history: "h.csv".to_string(), forecast: "f.csv".to_string() };
    let links = resolve_links(Some(given));
    assert_eq!(links.history, "h.csv");
    assert_eq!(links.forecast, "f.csv");
    let fallback = resolve_links(None);
    assert_eq!(fallback.history, "history.csv");
}

#[test]
fn chart_with_forecast_carries_every_choice() {
    let given = DownloadLinks { history: "a".to_string(), forecast: "b".to_string() };
    let job = draw_area_chart_with_forecast("in.csv", "out.html", true, Some(given), true);
    assert_eq!(job.csv_path, "in.csv");
    assert_eq!(job.output_html, "out.html");
    assert!(job.with_forecast);
    assert!(job.minify_html);
    assert_eq!(job.links.history, "a");
    assert_eq!(job.links.forecast, "b");
}
